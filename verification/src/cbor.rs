//! Byte-level primitives of the beacon wire format.
//!
//! Every item on the wire starts with a one-byte head: a 3-bit major
//! type and a 5-bit argument that either holds a small unsigned value
//! directly or says how many of the following bytes (1, 2, 4 or 8,
//! big-endian) hold it.  The writer always emits the shortest head;
//! the reader accepts every definite-length head.

use vstd::prelude::*;

verus! {

/// Greatest nesting depth the decoder follows inside an opaque service
/// payload; keeps the recursive skip of unknown payloads stack-safe.
pub const OPAQUE_DEPTH: u64 = 125;

/// Shortest head encoding the given major type (< 8) and argument.
pub open spec fn head_spec(major: u8, v: u64) -> Seq<u8>
    recommends
        major < 8,
{
    if v < 24 {
        seq![((major << 5) | (v as u8)) as u8]
    } else if v < 0x100 {
        seq![((major << 5) | 24) as u8, (v & 0xff) as u8]
    } else if v < 0x10000 {
        seq![((major << 5) | 25) as u8, ((v >> 8) & 0xff) as u8, (v & 0xff) as u8]
    } else if v < 0x1_0000_0000 {
        seq![
            ((major << 5) | 26) as u8,
            ((v >> 24) & 0xff) as u8,
            ((v >> 16) & 0xff) as u8,
            ((v >> 8) & 0xff) as u8,
            (v & 0xff) as u8,
        ]
    } else {
        seq![
            ((major << 5) | 27) as u8,
            ((v >> 56) & 0xff) as u8,
            ((v >> 48) & 0xff) as u8,
            ((v >> 40) & 0xff) as u8,
            ((v >> 32) & 0xff) as u8,
            ((v >> 24) & 0xff) as u8,
            ((v >> 16) & 0xff) as u8,
            ((v >> 8) & 0xff) as u8,
            (v & 0xff) as u8,
        ]
    }
}

/// Reads one definite-length head: major type, argument value, and the
/// number of bytes the head occupies.  `None` on truncation and on the
/// indefinite-length or reserved argument forms.
pub open spec fn parse_head(s: Seq<u8>) -> Option<(u8, u64, int)> {
    if s.len() == 0 {
        None
    } else {
        let major = s[0] >> 5;
        let ai = s[0] & 0x1f;
        if ai < 24 {
            Some((major, ai as u64, 1int))
        } else if ai == 24 {
            if s.len() >= 2 {
                Some((major, s[1] as u64, 2int))
            } else {
                None
            }
        } else if ai == 25 {
            if s.len() >= 3 {
                Some((major, ((s[1] as u64) << 8) | (s[2] as u64), 3int))
            } else {
                None
            }
        } else if ai == 26 {
            if s.len() >= 5 {
                Some(
                    (
                        major,
                        ((s[1] as u64) << 24) | ((s[2] as u64) << 16) | ((s[3] as u64) << 8) | (
                        s[4] as u64),
                        5int,
                    ),
                )
            } else {
                None
            }
        } else if ai == 27 {
            if s.len() >= 9 {
                Some(
                    (
                        major,
                        ((s[1] as u64) << 56) | ((s[2] as u64) << 48) | ((s[3] as u64) << 40) | ((
                        s[4] as u64) << 32) | ((s[5] as u64) << 24) | ((s[6] as u64) << 16) | ((
                        s[7] as u64) << 8) | (s[8] as u64),
                        9int,
                    ),
                )
            } else {
                None
            }
        } else {
            None
        }
    }
}

/// A parsed head always consumes between 1 and 9 bytes of its input.
pub proof fn lemma_parse_head_len(s: Seq<u8>)
    requires
        parse_head(s) is Some,
    ensures
        1 <= parse_head(s)->Some_0.2 <= 9,
        parse_head(s)->Some_0.2 <= s.len(),
{
}

/// Extra bytes after a complete head do not change how it reads.
pub proof fn lemma_parse_head_extend(s: Seq<u8>, ext: Seq<u8>)
    requires
        parse_head(s) is Some,
    ensures
        parse_head(s + ext) == parse_head(s),
{
    assert((s + ext).len() == s.len() + ext.len());
    assert(forall|i: int| 0 <= i < s.len() ==> (s + ext)[i] == s[i]);
}

/// A head written by `head_spec` reads back as what was written,
/// whatever follows it.
pub proof fn lemma_parse_head_of_encoded(major: u8, v: u64, rest: Seq<u8>)
    requires
        major < 8,
    ensures
        parse_head(head_spec(major, v) + rest) == Some(
            (major, v, head_spec(major, v).len() as int),
        ),
{
    let s = head_spec(major, v) + rest;
    assert(forall|i: int| 0 <= i < head_spec(major, v).len() ==> s[i] == head_spec(major, v)[i]);
    if v < 24 {
        let b0 = ((major << 5) | (v as u8)) as u8;
        assert(b0 >> 5 == major && b0 & 0x1f == v as u8 && (v as u8) < 24) by (bit_vector)
            requires
                major < 8,
                v < 24,
                b0 == ((major << 5) | (v as u8)) as u8,
        ;
    } else if v < 0x100 {
        let b0 = ((major << 5) | 24) as u8;
        assert(b0 >> 5 == major && b0 & 0x1f == 24) by (bit_vector)
            requires
                major < 8,
                b0 == ((major << 5) | 24) as u8,
        ;
        assert(((v & 0xff) as u8) as u64 == v) by (bit_vector)
            requires
                v < 0x100,
        ;
    } else if v < 0x10000 {
        let b0 = ((major << 5) | 25) as u8;
        assert(b0 >> 5 == major && b0 & 0x1f == 25) by (bit_vector)
            requires
                major < 8,
                b0 == ((major << 5) | 25) as u8,
        ;
        assert(((((v >> 8) & 0xff) as u8) as u64) << 8 | (((v & 0xff) as u8) as u64) == v)
            by (bit_vector)
            requires
                v < 0x10000,
        ;
    } else if v < 0x1_0000_0000 {
        let b0 = ((major << 5) | 26) as u8;
        assert(b0 >> 5 == major && b0 & 0x1f == 26) by (bit_vector)
            requires
                major < 8,
                b0 == ((major << 5) | 26) as u8,
        ;
        assert(((((v >> 24) & 0xff) as u8) as u64) << 24 | ((((v >> 16) & 0xff) as u8) as u64)
            << 16 | ((((v >> 8) & 0xff) as u8) as u64) << 8 | (((v & 0xff) as u8) as u64) == v)
            by (bit_vector)
            requires
                v < 0x1_0000_0000,
        ;
    } else {
        let b0 = ((major << 5) | 27) as u8;
        assert(b0 >> 5 == major && b0 & 0x1f == 27) by (bit_vector)
            requires
                major < 8,
                b0 == ((major << 5) | 27) as u8,
        ;
        assert(((((v >> 56) & 0xff) as u8) as u64) << 56 | ((((v >> 48) & 0xff) as u8) as u64)
            << 48 | ((((v >> 40) & 0xff) as u8) as u64) << 40 | ((((v >> 32) & 0xff) as u8) as u64)
            << 32 | ((((v >> 24) & 0xff) as u8) as u64) << 24 | ((((v >> 16) & 0xff) as u8) as u64)
            << 16 | ((((v >> 8) & 0xff) as u8) as u64) << 8 | (((v & 0xff) as u8) as u64) == v)
            by (bit_vector);
    }
}

/// Appends the shortest head for the given major type and argument.
pub fn write_head(out: &mut Vec<u8>, major: u8, v: u64)
    requires
        major < 8,
    ensures
        final(out)@ == old(out)@ + head_spec(major, v),
{
    proof {
        assert(major << 5 | 24 < 256 && major << 5 | 25 < 256 && major << 5 | 26 < 256 && major
            << 5 | 27 < 256) by (bit_vector)
            requires
                major < 8,
        ;
        assert(v < 24 ==> (major << 5 | (v as u8)) < 256) by (bit_vector);
    }
    if v < 24 {
        out.push((major << 5) | (v as u8));
    } else if v < 0x100 {
        out.push((major << 5) | 24);
        out.push((v & 0xff) as u8);
    } else if v < 0x10000 {
        out.push((major << 5) | 25);
        out.push(((v >> 8) & 0xff) as u8);
        out.push((v & 0xff) as u8);
    } else if v < 0x1_0000_0000 {
        out.push((major << 5) | 26);
        out.push(((v >> 24) & 0xff) as u8);
        out.push(((v >> 16) & 0xff) as u8);
        out.push(((v >> 8) & 0xff) as u8);
        out.push((v & 0xff) as u8);
    } else {
        out.push((major << 5) | 27);
        out.push(((v >> 56) & 0xff) as u8);
        out.push(((v >> 48) & 0xff) as u8);
        out.push(((v >> 40) & 0xff) as u8);
        out.push(((v >> 32) & 0xff) as u8);
        out.push(((v >> 24) & 0xff) as u8);
        out.push(((v >> 16) & 0xff) as u8);
        out.push(((v >> 8) & 0xff) as u8);
        out.push((v & 0xff) as u8);
    }
    proof {
        assert(out@ =~= old(out)@ + head_spec(major, v));
    }
}

/// Reads one head starting at `pos`; returns major type, argument and
/// the position just past the head.
pub fn read_head(buf: &[u8], pos: usize) -> (r: Option<(u8, u64, usize)>)
    requires
        pos <= buf@.len(),
    ensures
        match r {
            Some(h) => {
                &&& parse_head(buf@.skip(pos as int)) == Some(
                    (h.0, h.1, h.2 - pos as int),
                )
                &&& pos < h.2 <= buf@.len()
            },
            None => parse_head(buf@.skip(pos as int)) is None,
        },
{
    let ghost tail = buf@.skip(pos as int);
    assert(tail.len() == buf@.len() - pos);
    assert(forall|i: int| 0 <= i < tail.len() ==> tail[i] == buf@[pos + i]);
    if pos >= buf.len() {
        return None;
    }
    let b0 = buf[pos];
    let major = b0 >> 5;
    let ai = b0 & 0x1f;
    proof {
        assert(b0 >> 5 < 8 && b0 & 0x1f < 32) by (bit_vector);
    }
    if ai < 24 {
        Some((major, ai as u64, pos + 1))
    } else if ai == 24 {
        if buf.len() - pos >= 2 {
            Some((major, buf[pos + 1] as u64, pos + 2))
        } else {
            None
        }
    } else if ai == 25 {
        if buf.len() - pos >= 3 {
            let v = ((buf[pos + 1] as u64) << 8) | (buf[pos + 2] as u64);
            Some((major, v, pos + 3))
        } else {
            None
        }
    } else if ai == 26 {
        if buf.len() - pos >= 5 {
            let v = ((buf[pos + 1] as u64) << 24) | ((buf[pos + 2] as u64) << 16) | ((buf[pos
                + 3] as u64) << 8) | (buf[pos + 4] as u64);
            Some((major, v, pos + 5))
        } else {
            None
        }
    } else if ai == 27 {
        if buf.len() - pos >= 9 {
            let v = ((buf[pos + 1] as u64) << 56) | ((buf[pos + 2] as u64) << 48) | ((buf[pos
                + 3] as u64) << 40) | ((buf[pos + 4] as u64) << 32) | ((buf[pos + 5] as u64) << 24)
                | ((buf[pos + 6] as u64) << 16) | ((buf[pos + 7] as u64) << 8) | (buf[pos
                + 8] as u64);
            Some((major, v, pos + 9))
        } else {
            None
        }
    } else {
        None
    }
}

/// Length of the first complete item of `s`, following nested items up
/// to `depth` levels down.  `None` when the bytes are truncated, use an
/// indefinite-length form, or nest deeper than `depth`.
pub open spec fn skip_item(s: Seq<u8>, depth: nat) -> Option<int>
    decreases depth, 0nat, 0nat,
{
    if depth == 0 {
        None
    } else {
        match parse_head(s) {
            None => None,
            Some((major, v, k)) => {
                if major == 0 || major == 1 {
                    Some(k)
                } else if major == 2 || major == 3 {
                    if k + v <= s.len() {
                        Some(k + v)
                    } else {
                        None
                    }
                } else if major == 4 {
                    match skip_items(s.skip(k), v as nat, (depth - 1) as nat) {
                        Some(e) => Some(k + e),
                        None => None,
                    }
                } else if major == 5 {
                    match skip_items(s.skip(k), v as nat, (depth - 1) as nat) {
                        Some(e1) => match skip_items(
                            s.skip(k + e1),
                            v as nat,
                            (depth - 1) as nat,
                        ) {
                            Some(e2) => Some(k + e1 + e2),
                            None => None,
                        },
                        None => None,
                    }
                } else if major == 6 {
                    match skip_item(s.skip(k), (depth - 1) as nat) {
                        Some(e) => Some(k + e),
                        None => None,
                    }
                } else {
                    Some(k)
                }
            },
        }
    }
}

/// Length of the first `n` complete items of `s`.
pub open spec fn skip_items(s: Seq<u8>, n: nat, depth: nat) -> Option<int>
    decreases depth, n, 1nat,
{
    if n == 0 {
        Some(0)
    } else {
        match skip_item(s, depth) {
            Some(e) => if 0 <= e <= s.len() {
                match skip_items(s.skip(e), (n - 1) as nat, depth) {
                    Some(e2) => Some(e + e2),
                    None => None,
                }
            } else {
                None
            },
            None => None,
        }
    }
}

/// A skipped item covers at least its head and never runs past the end.
pub proof fn lemma_skip_item_len(s: Seq<u8>, depth: nat)
    requires
        skip_item(s, depth) is Some,
    ensures
        1 <= skip_item(s, depth)->Some_0 <= s.len(),
    decreases depth, 0nat, 0nat,
{
    let (major, v, k) = parse_head(s)->Some_0;
    lemma_parse_head_len(s);
    if major == 4 {
        lemma_skip_items_len(s.skip(k), v as nat, (depth - 1) as nat);
    } else if major == 5 {
        let e1 = skip_items(s.skip(k), v as nat, (depth - 1) as nat)->Some_0;
        lemma_skip_items_len(s.skip(k), v as nat, (depth - 1) as nat);
        lemma_skip_items_len(s.skip(k + e1), v as nat, (depth - 1) as nat);
    } else if major == 6 {
        lemma_skip_item_len(s.skip(k), (depth - 1) as nat);
    }
}

/// Skipped items cover a prefix of the input.
pub proof fn lemma_skip_items_len(s: Seq<u8>, n: nat, depth: nat)
    requires
        skip_items(s, n, depth) is Some,
    ensures
        0 <= skip_items(s, n, depth)->Some_0 <= s.len(),
    decreases depth, n, 1nat,
{
    if n != 0 {
        let e = skip_item(s, depth)->Some_0;
        lemma_skip_item_len(s, depth);
        lemma_skip_items_len(s.skip(e), (n - 1) as nat, depth);
    }
}

/// Extra bytes after a complete item do not change how far it reaches.
pub proof fn lemma_skip_item_extend(s: Seq<u8>, ext: Seq<u8>, depth: nat)
    requires
        skip_item(s, depth) is Some,
    ensures
        skip_item(s + ext, depth) == skip_item(s, depth),
    decreases depth, 0nat, 0nat,
{
    let (major, v, k) = parse_head(s)->Some_0;
    lemma_parse_head_extend(s, ext);
    lemma_parse_head_len(s);
    assert(s.skip(k) + ext =~= (s + ext).skip(k));
    if major == 2 || major == 3 {
        assert(k + v <= (s + ext).len());
    } else if major == 4 {
        lemma_skip_items_extend(s.skip(k), ext, v as nat, (depth - 1) as nat);
    } else if major == 5 {
        let e1 = skip_items(s.skip(k), v as nat, (depth - 1) as nat)->Some_0;
        lemma_skip_items_len(s.skip(k), v as nat, (depth - 1) as nat);
        lemma_skip_items_extend(s.skip(k), ext, v as nat, (depth - 1) as nat);
        assert(s.skip(k + e1) + ext =~= (s + ext).skip(k + e1));
        lemma_skip_items_extend(s.skip(k + e1), ext, v as nat, (depth - 1) as nat);
    } else if major == 6 {
        lemma_skip_item_extend(s.skip(k), ext, (depth - 1) as nat);
    }
}

/// Extra bytes after `n` complete items do not change how far they reach.
pub proof fn lemma_skip_items_extend(s: Seq<u8>, ext: Seq<u8>, n: nat, depth: nat)
    requires
        skip_items(s, n, depth) is Some,
    ensures
        skip_items(s + ext, n, depth) == skip_items(s, n, depth),
    decreases depth, n, 1nat,
{
    if n != 0 {
        let e = skip_item(s, depth)->Some_0;
        lemma_skip_item_len(s, depth);
        lemma_skip_item_extend(s, ext, depth);
        assert(s.skip(e) + ext =~= (s + ext).skip(e));
        lemma_skip_items_extend(s.skip(e), ext, (n - 1) as nat, depth);
    }
}

/// Cutting the input right at the end of a complete item leaves a
/// complete item of the same length.
pub proof fn lemma_skip_item_truncate(s: Seq<u8>, depth: nat)
    requires
        skip_item(s, depth) is Some,
    ensures
        skip_item(s.take(skip_item(s, depth)->Some_0), depth) == skip_item(s, depth),
{
    let e = skip_item(s, depth)->Some_0;
    lemma_skip_item_len(s, depth);
    lemma_skip_item_trunc_rec(s, e, depth);
}

proof fn lemma_skip_item_trunc_rec(s: Seq<u8>, hi: int, depth: nat)
    requires
        skip_item(s, depth) is Some,
        skip_item(s, depth)->Some_0 <= hi <= s.len(),
    ensures
        skip_item(s.take(hi), depth) == skip_item(s, depth),
    decreases depth, 0nat, 0nat,
{
    let t = s.take(hi);
    let (major, v, k) = parse_head(s)->Some_0;
    lemma_parse_head_len(s);
    lemma_skip_item_len(s, depth);
    assert(forall|i: int| 0 <= i < hi ==> t[i] == s[i]);
    // the item reaches at least past its head
    if major == 4 {
        lemma_skip_items_len(s.skip(k), v as nat, (depth - 1) as nat);
    } else if major == 5 {
        lemma_skip_items_len(s.skip(k), v as nat, (depth - 1) as nat);
        let e1 = skip_items(s.skip(k), v as nat, (depth - 1) as nat)->Some_0;
        lemma_skip_items_len(s.skip(k + e1), v as nat, (depth - 1) as nat);
    } else if major == 6 {
        lemma_skip_item_len(s.skip(k), (depth - 1) as nat);
    }
    assert(k <= hi);
    // the head reads the same on the truncated input
    assert(parse_head(t) == Some((major, v, k)));
    assert(t.skip(k) =~= s.skip(k).take(hi - k));
    if major == 2 || major == 3 {
        assert(k + v <= t.len());
    } else if major == 4 {
        lemma_skip_items_trunc_rec(s.skip(k), hi - k, v as nat, (depth - 1) as nat);
    } else if major == 5 {
        let e1 = skip_items(s.skip(k), v as nat, (depth - 1) as nat)->Some_0;
        lemma_skip_items_trunc_rec(s.skip(k), hi - k, v as nat, (depth - 1) as nat);
        assert(t.skip(k + e1) =~= s.skip(k + e1).take(hi - k - e1));
        lemma_skip_items_trunc_rec(s.skip(k + e1), hi - k - e1, v as nat, (depth - 1) as nat);
    } else if major == 6 {
        lemma_skip_item_trunc_rec(s.skip(k), hi - k, (depth - 1) as nat);
    }
}

proof fn lemma_skip_items_trunc_rec(s: Seq<u8>, hi: int, n: nat, depth: nat)
    requires
        skip_items(s, n, depth) is Some,
        skip_items(s, n, depth)->Some_0 <= hi <= s.len(),
    ensures
        skip_items(s.take(hi), n, depth) == skip_items(s, n, depth),
    decreases depth, n, 1nat,
{
    if n != 0 {
        let t = s.take(hi);
        let e = skip_item(s, depth)->Some_0;
        lemma_skip_item_len(s, depth);
        lemma_skip_items_len(s.skip(e), (n - 1) as nat, depth);
        lemma_skip_item_trunc_rec(s, hi, depth);
        assert(t.skip(e) =~= s.skip(e).take(hi - e));
        lemma_skip_items_trunc_rec(s.skip(e), hi - e, (n - 1) as nat, depth);
    }
}

/// Finds the end of the first complete item starting at `pos`.
pub fn skip_item_at(buf: &[u8], pos: usize, depth: u64) -> (r: Option<usize>)
    requires
        pos <= buf@.len(),
    ensures
        match r {
            Some(end) => {
                &&& skip_item(buf@.skip(pos as int), depth as nat) == Some(end - pos as int)
                &&& pos < end <= buf@.len()
            },
            None => skip_item(buf@.skip(pos as int), depth as nat) is None,
        },
    decreases depth, 0nat, 0nat,
{
    let ghost tail = buf@.skip(pos as int);
    if depth == 0 {
        return None;
    }
    match read_head(buf, pos) {
        None => None,
        Some((major, v, hend)) => {
            proof {
                assert(tail.skip(hend - pos as int) =~= buf@.skip(hend as int));
            }
            if major == 0 || major == 1 {
                Some(hend)
            } else if major == 2 || major == 3 {
                if v <= (buf.len() - hend) as u64 {
                    Some(hend + (v as usize))
                } else {
                    None
                }
            } else if major == 4 {
                match skip_items_at(buf, hend, v, depth - 1) {
                    Some(end) => Some(end),
                    None => None,
                }
            } else if major == 5 {
                match skip_items_at(buf, hend, v, depth - 1) {
                    Some(mid) => {
                        proof {
                            assert(tail.skip(mid - pos as int) =~= buf@.skip(mid as int));
                        }
                        match skip_items_at(buf, mid, v, depth - 1) {
                            Some(end) => Some(end),
                            None => None,
                        }
                    },
                    None => None,
                }
            } else if major == 6 {
                match skip_item_at(buf, hend, depth - 1) {
                    Some(end) => Some(end),
                    None => None,
                }
            } else {
                Some(hend)
            }
        },
    }
}

/// Finds the end of the first `n` complete items starting at `pos`.
pub fn skip_items_at(buf: &[u8], pos: usize, n: u64, depth: u64) -> (r: Option<usize>)
    requires
        pos <= buf@.len(),
    ensures
        match r {
            Some(end) => {
                &&& skip_items(buf@.skip(pos as int), n as nat, depth as nat) == Some(
                    end - pos as int,
                )
                &&& pos <= end <= buf@.len()
            },
            None => skip_items(buf@.skip(pos as int), n as nat, depth as nat) is None,
        },
    decreases depth, n, 1nat,
{
    if n == 0 {
        return Some(pos);
    }
    let ghost tail = buf@.skip(pos as int);
    match skip_item_at(buf, pos, depth) {
        None => None,
        Some(mid) => {
            proof {
                assert(tail.skip(mid - pos as int) =~= buf@.skip(mid as int));
            }
            match skip_items_at(buf, mid, n - 1, depth) {
                Some(end) => Some(end),
                None => None,
            }
        },
    }
}

} // verus!
