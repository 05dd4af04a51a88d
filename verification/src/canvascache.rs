//! The incremental memoized renderer: a bounded LRU map from canonical
//! shape-sequence keys to rendered canvas snapshots.
//!
//! `canvas_for` always returns a canvas equal to rendering the full
//! list from a blank canvas of the cache's fixed dimensions, whatever
//! the cache holds; the cache only makes it cheaper, by reusing the
//! longest cached prefix and drawing the remaining suffix onto a copy.

use vstd::prelude::*;
use std::hash::{Hash, BuildHasher, BuildHasherDefault};
use lru_cache::LruCache;
use fnv::FnvHasher;
use crate::canvas::{Canvas, CanvasModel, blank_model};
use crate::shapelist::{ShapeList, draw_list, lemma_draw_list_wf};
use crate::shapes::Shape;

verus! {

/// How many prefix snapshots the cache retains before evicting.
pub const CACHE_CAPACITY: usize = 1000;

/// One retained snapshot: the exact shape sequence it was rendered
/// from, and the rendered canvas.
#[derive(Clone)]
pub struct CacheEntry {
    pub list: ShapeList,
    pub canvas: Canvas,
}

#[verifier::external_type_specification]
#[verifier::external_body]
pub struct ExFnvHasher(FnvHasher);

#[verifier::external_type_specification]
#[verifier::external_body]
#[verifier::reject_recursive_types(H)]
pub struct ExBuildHasherDefault<H>(BuildHasherDefault<H>);

#[verifier::external_type_specification]
#[verifier::external_body]
#[verifier::reject_recursive_types(K)]
#[verifier::reject_recursive_types(V)]
#[verifier::reject_recursive_types(S)]
pub struct ExLruCache<K: Eq + Hash, V, S: BuildHasher>(LruCache<K, V, S>);

/// The retained entries of the LRU map, most recently used first, each
/// with its key.
pub uninterp spec fn lru_model(
    m: &LruCache<Vec<u8>, CacheEntry, BuildHasherDefault<FnvHasher>>,
) -> Seq<(Seq<u8>, CacheEntry)>;

/// The fixed number of entries the LRU map can hold.
pub uninterp spec fn lru_capacity(
    m: &LruCache<Vec<u8>, CacheEntry, BuildHasherDefault<FnvHasher>>,
) -> nat;

/// Relies on lru_cache::LruCache::with_hasher: an empty cache that can
/// hold at most `capacity` entries, using the given hash builder.
#[verifier::external_body]
fn lru_new(capacity: usize) -> (m: LruCache<Vec<u8>, CacheEntry, BuildHasherDefault<FnvHasher>>)
    ensures
        lru_model(&m) == Seq::<(Seq<u8>, CacheEntry)>::empty(),
        lru_capacity(&m) == capacity,
{
    LruCache::with_hasher(capacity, BuildHasherDefault::<FnvHasher>::default())
}

/// Relies on lru_cache::LruCache::get_mut (backed by linked-hash-map's
/// get_refresh): a clone of the entry stored under exactly this key,
/// its slot moved to most recently used; an absent key changes nothing.
#[verifier::external_body]
fn lru_get(
    m: &mut LruCache<Vec<u8>, CacheEntry, BuildHasherDefault<FnvHasher>>,
    k: &Vec<u8>,
) -> (r: Option<CacheEntry>)
    ensures
        lru_capacity(final(m)) == lru_capacity(old(m)),
        match r {
            Some(e) => exists|i: int|
                0 <= i < lru_model(old(m)).len() && lru_model(old(m))[i] == (k@, e)
                    && lru_model(final(m)) == seq![lru_model(old(m))[i]] + lru_model(
                    old(m),
                ).remove(i),
            None => {
                &&& lru_model(final(m)) == lru_model(old(m))
                &&& forall|i: int|
                    0 <= i < lru_model(old(m)).len() ==> (#[trigger] lru_model(old(m))[i]).0 != k@
            },
        },
{
    m.get_mut(k).map(|e| e.clone())
}

/// Relies on lru_cache::LruCache::insert: stores the pair as most
/// recently used, replacing and refreshing an entry whose key is equal;
/// when a fresh key would exceed the capacity, the least recently used
/// entry is evicted, exactly one per overflow insertion.
#[verifier::external_body]
fn lru_insert(
    m: &mut LruCache<Vec<u8>, CacheEntry, BuildHasherDefault<FnvHasher>>,
    k: Vec<u8>,
    v: CacheEntry,
)
    ensures
        lru_capacity(final(m)) == lru_capacity(old(m)),
        (exists|i: int|
            0 <= i < lru_model(old(m)).len() && (#[trigger] lru_model(old(m))[i]).0 == k@
                && lru_model(final(m)) == seq![(k@, v)] + lru_model(old(m)).remove(i)) || ({
            &&& forall|i: int|
                0 <= i < lru_model(old(m)).len() ==> (#[trigger] lru_model(old(m))[i]).0 != k@
            &&& lru_model(final(m)) == (if lru_model(old(m)).len() + 1 > lru_capacity(old(m)) {
                (seq![(k@, v)] + lru_model(old(m))).drop_last()
            } else {
                seq![(k@, v)] + lru_model(old(m))
            })
        }),
{
    m.insert(k, v);
}

// ------------------------------------------------------------------
// Canonical cache keys
// ------------------------------------------------------------------

/// The low byte of a grid value.
pub open spec fn lo_byte(v: u16) -> u8 {
    (v % 256) as u8
}

/// The high byte of a grid value.
pub open spec fn hi_byte(v: u16) -> u8 {
    (v / 256) as u8
}

/// The fixed-width canonical record of one shape: a variant tag, six
/// two-byte grid slots (unused ones zero), the three channel bytes and
/// the two opacity bytes. Exact-value keys built from these records
/// make cache lookups exact on the quantization grid, with no
/// round-off and no collision concern.
pub open spec fn shape_bytes(s: Shape) -> Seq<u8> {
    match s {
        Shape::Circle(c) => seq![
            1u8,
            lo_byte(c.x),
            hi_byte(c.x),
            lo_byte(c.y),
            hi_byte(c.y),
            lo_byte(c.rad),
            hi_byte(c.rad),
            0u8,
            0u8,
            0u8,
            0u8,
            0u8,
            0u8,
            c.color.r,
            c.color.g,
            c.color.b,
            lo_byte(c.color.opacity),
            hi_byte(c.color.opacity),
        ],
        Shape::Rect(r) => seq![
            2u8,
            lo_byte(r.x),
            hi_byte(r.x),
            lo_byte(r.y),
            hi_byte(r.y),
            lo_byte(r.width),
            hi_byte(r.width),
            lo_byte(r.height),
            hi_byte(r.height),
            0u8,
            0u8,
            0u8,
            0u8,
            r.color.r,
            r.color.g,
            r.color.b,
            lo_byte(r.color.opacity),
            hi_byte(r.color.opacity),
        ],
        Shape::Triangle(t) => seq![
            3u8,
            lo_byte(t.x1),
            hi_byte(t.x1),
            lo_byte(t.y1),
            hi_byte(t.y1),
            lo_byte(t.x2),
            hi_byte(t.x2),
            lo_byte(t.y2),
            hi_byte(t.y2),
            lo_byte(t.x3),
            hi_byte(t.x3),
            lo_byte(t.y3),
            hi_byte(t.y3),
            t.color.r,
            t.color.g,
            t.color.b,
            lo_byte(t.color.opacity),
            hi_byte(t.color.opacity),
        ],
    }
}

/// The canonical key of an ordered shape sequence: the concatenation of
/// the shapes' records.
pub open spec fn encode_list(s: Seq<Shape>) -> Seq<u8>
    decreases s.len(),
{
    if s.len() == 0 {
        Seq::empty()
    } else {
        encode_list(s.drop_last()) + shape_bytes(s.last())
    }
}

/// Every record is eighteen bytes, so the key length determines the
/// sequence length: keys of prefixes of different lengths never clash.
pub proof fn lemma_encode_len(s: Seq<Shape>)
    ensures
        encode_list(s).len() == 18 * s.len(),
    decreases s.len(),
{
    if s.len() > 0 {
        lemma_encode_len(s.drop_last());
    }
}

/// A grid value is recovered from its two bytes, so equal records mean
/// equal shapes.
pub proof fn lemma_shape_bytes_injective(a: Shape, b: Shape)
    requires
        shape_bytes(a) == shape_bytes(b),
    ensures
        a == b,
{
    let ba = shape_bytes(a);
    let bb = shape_bytes(b);
    assert(ba[0] == bb[0]);
    match (a, b) {
        (Shape::Circle(c1), Shape::Circle(c2)) => {
            assert(c1.x == 256 * (c1.x / 256) + c1.x % 256);
            assert(c2.x == 256 * (c2.x / 256) + c2.x % 256);
            assert(c1.y == 256 * (c1.y / 256) + c1.y % 256);
            assert(c2.y == 256 * (c2.y / 256) + c2.y % 256);
            assert(c1.rad == 256 * (c1.rad / 256) + c1.rad % 256);
            assert(c2.rad == 256 * (c2.rad / 256) + c2.rad % 256);
            assert(c1.color.opacity == 256 * (c1.color.opacity / 256) + c1.color.opacity % 256);
            assert(c2.color.opacity == 256 * (c2.color.opacity / 256) + c2.color.opacity % 256);
            assert(ba[1] == bb[1] && ba[2] == bb[2] && ba[3] == bb[3] && ba[4] == bb[4] && ba[5]
                == bb[5] && ba[6] == bb[6] && ba[13] == bb[13] && ba[14] == bb[14] && ba[15]
                == bb[15] && ba[16] == bb[16] && ba[17] == bb[17]);
        },
        (Shape::Rect(r1), Shape::Rect(r2)) => {
            assert(r1.x == 256 * (r1.x / 256) + r1.x % 256);
            assert(r2.x == 256 * (r2.x / 256) + r2.x % 256);
            assert(r1.y == 256 * (r1.y / 256) + r1.y % 256);
            assert(r2.y == 256 * (r2.y / 256) + r2.y % 256);
            assert(r1.width == 256 * (r1.width / 256) + r1.width % 256);
            assert(r2.width == 256 * (r2.width / 256) + r2.width % 256);
            assert(r1.height == 256 * (r1.height / 256) + r1.height % 256);
            assert(r2.height == 256 * (r2.height / 256) + r2.height % 256);
            assert(r1.color.opacity == 256 * (r1.color.opacity / 256) + r1.color.opacity % 256);
            assert(r2.color.opacity == 256 * (r2.color.opacity / 256) + r2.color.opacity % 256);
            assert(ba[1] == bb[1] && ba[2] == bb[2] && ba[3] == bb[3] && ba[4] == bb[4] && ba[5]
                == bb[5] && ba[6] == bb[6] && ba[7] == bb[7] && ba[8] == bb[8] && ba[13] == bb[13]
                && ba[14] == bb[14] && ba[15] == bb[15] && ba[16] == bb[16] && ba[17] == bb[17]);
        },
        (Shape::Triangle(t1), Shape::Triangle(t2)) => {
            assert(t1.x1 == 256 * (t1.x1 / 256) + t1.x1 % 256);
            assert(t2.x1 == 256 * (t2.x1 / 256) + t2.x1 % 256);
            assert(t1.y1 == 256 * (t1.y1 / 256) + t1.y1 % 256);
            assert(t2.y1 == 256 * (t2.y1 / 256) + t2.y1 % 256);
            assert(t1.x2 == 256 * (t1.x2 / 256) + t1.x2 % 256);
            assert(t2.x2 == 256 * (t2.x2 / 256) + t2.x2 % 256);
            assert(t1.y2 == 256 * (t1.y2 / 256) + t1.y2 % 256);
            assert(t2.y2 == 256 * (t2.y2 / 256) + t2.y2 % 256);
            assert(t1.x3 == 256 * (t1.x3 / 256) + t1.x3 % 256);
            assert(t2.x3 == 256 * (t2.x3 / 256) + t2.x3 % 256);
            assert(t1.y3 == 256 * (t1.y3 / 256) + t1.y3 % 256);
            assert(t2.y3 == 256 * (t2.y3 / 256) + t2.y3 % 256);
            assert(t1.color.opacity == 256 * (t1.color.opacity / 256) + t1.color.opacity % 256);
            assert(t2.color.opacity == 256 * (t2.color.opacity / 256) + t2.color.opacity % 256);
            assert(ba[1] == bb[1] && ba[2] == bb[2] && ba[3] == bb[3] && ba[4] == bb[4] && ba[5]
                == bb[5] && ba[6] == bb[6] && ba[7] == bb[7] && ba[8] == bb[8] && ba[9] == bb[9]
                && ba[10] == bb[10] && ba[11] == bb[11] && ba[12] == bb[12] && ba[13] == bb[13]
                && ba[14] == bb[14] && ba[15] == bb[15] && ba[16] == bb[16] && ba[17] == bb[17]);
        },
        _ => {},
    }
}

/// The canonical key determines the sequence: equal keys mean equal
/// shape sequences, so an exact-key lookup never confuses two lists.
pub proof fn lemma_encode_injective(a: Seq<Shape>, b: Seq<Shape>)
    requires
        encode_list(a) == encode_list(b),
    ensures
        a == b,
    decreases a.len(),
{
    lemma_encode_len(a);
    lemma_encode_len(b);
    if a.len() == 0 {
        assert(a =~= b);
    } else {
        let ea = encode_list(a.drop_last());
        let eb = encode_list(b.drop_last());
        let sa = shape_bytes(a.last());
        let sb = shape_bytes(b.last());
        lemma_encode_len(a.drop_last());
        lemma_encode_len(b.drop_last());
        assert(ea =~= eb) by {
            assert forall|q: int| 0 <= q < ea.len() implies ea[q] == eb[q] by {
                assert(ea[q] == (ea + sa)[q]);
                assert(eb[q] == (eb + sb)[q]);
            }
        }
        assert(sa =~= sb) by {
            assert forall|q: int| 0 <= q < sa.len() implies sa[q] == sb[q] by {
                assert(sa[q] == (ea + sa)[ea.len() + q]);
                assert(sb[q] == (eb + sb)[eb.len() + q]);
            }
        }
        lemma_encode_injective(a.drop_last(), b.drop_last());
        lemma_shape_bytes_injective(a.last(), b.last());
        assert(a.len() == b.len());
        assert forall|q: int| 0 <= q < a.len() implies a[q] == b[q] by {
            if q < a.len() - 1 {
                assert(a[q] == a.drop_last()[q]);
                assert(b[q] == b.drop_last()[q]);
            } else {
                assert(a[q] == a.last());
                assert(b[q] == b.last());
            }
        }
        assert(a =~= b);
    }
}

/// Appends a grid value as two bytes, low byte first.
fn push_u16(v: &mut Vec<u8>, x: u16)
    ensures
        final(v)@ == old(v)@ + seq![lo_byte(x), hi_byte(x)],
{
    v.push((x % 256) as u8);
    v.push((x / 256) as u8);
    assert(v@ =~= old(v)@ + seq![lo_byte(x), hi_byte(x)]);
}

/// The canonical key of a list.
pub fn encode_key(sl: &ShapeList) -> (k: Vec<u8>)
    ensures
        k@ == encode_list(sl@),
{
    let n = sl.len();
    let mut k: Vec<u8> = Vec::new();
    let mut i: usize = 0;
    while i < n
        invariant
            i <= n,
            n == sl@.len(),
            k@ == encode_list(sl@.take(i as int)),
        decreases n - i,
    {
        proof {
            assert(sl@.take(i + 1).drop_last() =~= sl@.take(i as int));
            assert(sl@.take(i + 1).last() == sl@[i as int]);
        }
        let ghost kpre = k@;
        match sl.shapes[i] {
            Shape::Circle(c) => {
                k.push(1);
                push_u16(&mut k, c.x);
                push_u16(&mut k, c.y);
                push_u16(&mut k, c.rad);
                k.push(0);
                k.push(0);
                k.push(0);
                k.push(0);
                k.push(0);
                k.push(0);
                k.push(c.color.r);
                k.push(c.color.g);
                k.push(c.color.b);
                push_u16(&mut k, c.color.opacity);
                assert(k@ =~= kpre + shape_bytes(sl@[i as int]));
            },
            Shape::Rect(r) => {
                k.push(2);
                push_u16(&mut k, r.x);
                push_u16(&mut k, r.y);
                push_u16(&mut k, r.width);
                push_u16(&mut k, r.height);
                k.push(0);
                k.push(0);
                k.push(0);
                k.push(0);
                k.push(r.color.r);
                k.push(r.color.g);
                k.push(r.color.b);
                push_u16(&mut k, r.color.opacity);
                assert(k@ =~= kpre + shape_bytes(sl@[i as int]));
            },
            Shape::Triangle(t) => {
                k.push(3);
                push_u16(&mut k, t.x1);
                push_u16(&mut k, t.y1);
                push_u16(&mut k, t.x2);
                push_u16(&mut k, t.y2);
                push_u16(&mut k, t.x3);
                push_u16(&mut k, t.y3);
                k.push(t.color.r);
                k.push(t.color.g);
                k.push(t.color.b);
                push_u16(&mut k, t.color.opacity);
                assert(k@ =~= kpre + shape_bytes(sl@[i as int]));
            },
        }
        i = i + 1;
    }
    assert(sl@.take(n as int) =~= sl@);
    k
}

// ------------------------------------------------------------------
// The cache
// ------------------------------------------------------------------

/// Saturating counter increment: the observability counters never wrap.
pub open spec fn sat_add(a: int, b: int) -> int {
    if a + b <= usize::MAX {
        a + b
    } else {
        usize::MAX as int
    }
}

/// Increments a counter, saturating at the top of its range.
fn bump(c: usize, by: usize) -> (r: usize)
    ensures
        r == sat_add(c as int, by as int),
{
    if c <= usize::MAX - by {
        c + by
    } else {
        usize::MAX
    }
}

/// Whether the model holds an entry stored under exactly this key.
pub open spec fn has_key(mdl: Seq<(Seq<u8>, CacheEntry)>, k: Seq<u8>) -> bool {
    exists|i: int| 0 <= i < mdl.len() && (#[trigger] mdl[i]).0 == k
}

/// The model with the first entry stored under `k` taken out.
pub open spec fn remove_key(mdl: Seq<(Seq<u8>, CacheEntry)>, k: Seq<u8>) -> Seq<
    (Seq<u8>, CacheEntry),
>
    decreases mdl.len(),
{
    if mdl.len() == 0 {
        mdl
    } else if mdl[0].0 == k {
        mdl.drop_first()
    } else {
        seq![mdl[0]] + remove_key(mdl.drop_first(), k)
    }
}

/// With pairwise distinct keys, taking a key out is taking out the one
/// index that carries it.
pub proof fn lemma_remove_key_at(mdl: Seq<(Seq<u8>, CacheEntry)>, k: Seq<u8>, i0: int)
    requires
        0 <= i0 < mdl.len(),
        mdl[i0].0 == k,
        forall|i: int, j: int|
            0 <= i < j < mdl.len() ==> (#[trigger] mdl[i]).0 != (#[trigger] mdl[j]).0,
    ensures
        remove_key(mdl, k) == mdl.remove(i0),
    decreases mdl.len(),
{
    if mdl[0].0 == k {
        assert(i0 == 0);
        assert(mdl.drop_first() =~= mdl.remove(0));
    } else {
        let tail = mdl.drop_first();
        assert(i0 >= 1);
        assert(tail[i0 - 1].0 == k);
        assert forall|i: int, j: int|
            0 <= i < j < tail.len() implies (#[trigger] tail[i]).0 != (#[trigger] tail[j]).0 by {
            assert(tail[i] == mdl[i + 1] && tail[j] == mdl[j + 1]);
        }
        lemma_remove_key_at(tail, k, i0 - 1);
        assert(seq![mdl[0]] + tail.remove(i0 - 1) =~= mdl.remove(i0));
    }
}

/// Every entry left after taking a key out was an entry before.
pub proof fn lemma_remove_key_subset(mdl: Seq<(Seq<u8>, CacheEntry)>, k: Seq<u8>)
    ensures
        remove_key(mdl, k).len() <= mdl.len(),
        forall|q: int| #![trigger remove_key(mdl, k)[q]]
            0 <= q < remove_key(mdl, k).len() ==> exists|p: int| #![trigger mdl[p]]
                0 <= p < mdl.len() && remove_key(mdl, k)[q] == mdl[p],
    decreases mdl.len(),
{
    if mdl.len() == 0 {
    } else if mdl[0].0 == k {
        assert forall|q: int| #![trigger remove_key(mdl, k)[q]]
            0 <= q < remove_key(mdl, k).len() implies exists|p: int| #![trigger mdl[p]]
            0 <= p < mdl.len() && remove_key(mdl, k)[q] == mdl[p] by {
            assert(remove_key(mdl, k)[q] == mdl[q + 1]);
        }
    } else {
        let tail = mdl.drop_first();
        lemma_remove_key_subset(tail, k);
        assert forall|q: int| #![trigger remove_key(mdl, k)[q]]
            0 <= q < remove_key(mdl, k).len() implies exists|p: int| #![trigger mdl[p]]
            0 <= p < mdl.len() && remove_key(mdl, k)[q] == mdl[p] by {
            if q == 0 {
                assert(remove_key(mdl, k)[0] == mdl[0]);
            } else {
                assert(remove_key(mdl, k)[q] == remove_key(tail, k)[q - 1]);
                let p = choose|p: int|
                    0 <= p < tail.len() && remove_key(tail, k)[q - 1] == #[trigger] tail[p];
                assert(tail[p] == mdl[p + 1]);
            }
        }
    }
}

/// One bounded-LRU insertion step on the model: the entry is stored
/// most recently used; an entry under an equal key is replaced and
/// refreshed; a fresh key that would exceed the capacity evicts the
/// least recently used entry, exactly one per overflow insertion.
pub open spec fn lru_step(
    mdl: Seq<(Seq<u8>, CacheEntry)>,
    cap: nat,
    e: (Seq<u8>, CacheEntry),
) -> Seq<(Seq<u8>, CacheEntry)> {
    if has_key(mdl, e.0) {
        seq![e] + remove_key(mdl, e.0)
    } else if mdl.len() + 1 > cap {
        (seq![e] + mdl).drop_last()
    } else {
        seq![e] + mdl
    }
}

/// Whether `post` is `pre` evolved by storing a snapshot of each prefix
/// of `l` of length one through `j` in order, each one bounded-LRU step
/// whose entry carries the prefix's canonical key, the exact prefix,
/// and its blank-canvas rendering.
pub open spec fn insert_evolution(
    pre: Seq<(Seq<u8>, CacheEntry)>,
    cap: nat,
    l: Seq<Shape>,
    w: int,
    h: int,
    d: int,
    post: Seq<(Seq<u8>, CacheEntry)>,
    j: nat,
) -> bool
    decreases j,
{
    if j == 0 {
        post == pre
    } else {
        exists|mid: Seq<(Seq<u8>, CacheEntry)>, e: (Seq<u8>, CacheEntry)|
            #![trigger lru_step(mid, cap, e)]
            insert_evolution(pre, cap, l, w, h, d, mid, (j - 1) as nat) && e.0 == encode_list(
                l.take(j as int),
            ) && e.1.list@ == l.take(j as int) && e.1.canvas@ == draw_list(
                blank_model(w, h, d),
                l.take(j as int),
            ) && post == lru_step(mid, cap, e)
    }
}

/// A retained pair is sound for a cache of the given dimensions: the
/// stored canvas is exactly the rendering of the stored list from a
/// blank canvas, and the key is the list's canonical key.
pub open spec fn entry_ok(w: int, h: int, d: int, key: Seq<u8>, e: CacheEntry) -> bool {
    &&& e.list.wf()
    &&& key == encode_list(e.list@)
    &&& e.canvas@ == draw_list(blank_model(w, h, d), e.list@)
}

/// Whether the model holds a sound snapshot of exactly this prefix.
pub open spec fn entry_for(mdl: Seq<(Seq<u8>, CacheEntry)>, pref: Seq<Shape>) -> bool {
    exists|i: int|
        0 <= i < mdl.len() && (#[trigger] mdl[i]).0 == encode_list(pref) && mdl[i].1.list@ == pref
}

/// The length of the longest prefix of `s`, of length at most `upto`,
/// that the model holds a snapshot of; zero when none is held.
pub open spec fn longest_cached(mdl: Seq<(Seq<u8>, CacheEntry)>, s: Seq<Shape>, upto: nat) -> int
    decreases upto,
{
    if upto == 0 {
        0
    } else if entry_for(mdl, s.take(upto as int)) {
        upto as int
    } else {
        longest_cached(mdl, s, (upto - 1) as nat)
    }
}

/// Pins the longest cached prefix: if prefix `j` is held and no longer
/// one is, the longest cached prefix length is `j`.
pub proof fn lemma_longest_cached_is(
    mdl: Seq<(Seq<u8>, CacheEntry)>,
    s: Seq<Shape>,
    upto: nat,
    j: int,
)
    requires
        0 < j <= upto,
        entry_for(mdl, s.take(j)),
        forall|j2: int| j < j2 <= upto ==> !entry_for(mdl, s.take(j2)),
    ensures
        longest_cached(mdl, s, upto) == j,
    decreases upto,
{
    if upto as int > j {
        lemma_longest_cached_is(mdl, s, (upto - 1) as nat, j);
    }
}

/// When no prefix is held, the longest cached prefix length is zero.
pub proof fn lemma_longest_cached_none(mdl: Seq<(Seq<u8>, CacheEntry)>, s: Seq<Shape>, upto: nat)
    requires
        forall|j: int| 0 < j <= upto ==> !entry_for(mdl, s.take(j)),
    ensures
        longest_cached(mdl, s, upto) == 0,
    decreases upto,
{
    if upto > 0 {
        lemma_longest_cached_none(mdl, s, (upto - 1) as nat);
    }
}

/// Idempotence of lookups: the cache contract pins the result of a
/// lookup to the rendering of the list alone, so two successive
/// lookups of the same list, whatever each did to the cache's
/// internals, yield pixel-identical buffers.
pub proof fn lemma_canvas_for_idempotent(
    c1: CanvasModel,
    c2: CanvasModel,
    blank: CanvasModel,
    l: Seq<Shape>,
)
    requires
        c1 == draw_list(blank, l),
        c2 == draw_list(blank, l),
    ensures
        c1 == c2,
{
}

/// Prefix reuse: a lookup of a nonempty list whose snapshot the cache
/// holds is a hit at the full length of that list, since the whole
/// list is the longest prefix of itself.
pub proof fn lemma_prefix_reuse(mdl: Seq<(Seq<u8>, CacheEntry)>, pref: Seq<Shape>)
    requires
        0 < pref.len(),
        entry_for(mdl, pref),
    ensures
        longest_cached(mdl, pref, pref.len()) == pref.len(),
{
    assert(pref.take(pref.len() as int) =~= pref);
}

/// Prefix reuse, end to end: a cache state left by an insertion of a
/// list holds every prefix that fits the capacity, so a lookup of any
/// such nonempty prefix finds its snapshot at the prefix's full length.
pub proof fn lemma_insert_then_hit(mdl: Seq<(Seq<u8>, CacheEntry)>, l: Seq<Shape>, k: int)
    requires
        1 <= k <= l.len(),
        l.len() - k < CACHE_CAPACITY,
        forall|j: int| #![trigger l.take(j)]
            1 <= j <= l.len() && l.len() - j < CACHE_CAPACITY ==> entry_for(mdl, l.take(j)),
    ensures
        longest_cached(mdl, l.take(k), l.take(k).len()) == k,
{
    assert(entry_for(mdl, l.take(k)));
    lemma_prefix_reuse(mdl, l.take(k));
}

/// LRU eviction: one insertion of a fresh key into a full cache evicts
/// exactly the least-recently-touched entry; every other entry remains
/// retrievable, shifted one slot away from the most recent end.
pub proof fn lemma_lru_eviction(mdl: Seq<(Seq<u8>, CacheEntry)>, k: Seq<u8>, v: CacheEntry)
    requires
        0 < mdl.len(),
        forall|i: int| 0 <= i < mdl.len() ==> (#[trigger] mdl[i]).0 != k,
        forall|i: int, j: int|
            0 <= i < j < mdl.len() ==> (#[trigger] mdl[i]).0 != (#[trigger] mdl[j]).0,
    ensures
        ({
            let m2 = (seq![(k, v)] + mdl).drop_last();
            &&& m2.len() == mdl.len()
            &&& m2[0] == (k, v)
            &&& forall|q: int| 0 <= q < mdl.len() - 1 ==> m2[q + 1] == mdl[q]
            &&& forall|q: int| 0 <= q < m2.len() ==> (#[trigger] m2[q]).0 != mdl.last().0
        }),
{
    let m2 = (seq![(k, v)] + mdl).drop_last();
    assert forall|q: int| 0 <= q < m2.len() implies (#[trigger] m2[q]).0 != mdl.last().0 by {
        if q == 0 {
            assert(m2[q] == (k, v));
            assert(mdl.last().0 != k);
        } else {
            assert(m2[q] == mdl[q - 1]);
            assert(mdl[q - 1].0 != mdl[mdl.len() - 1].0);
        }
    }
}

/// Every entry of an evolved model is either a snapshot of one of the
/// inserted prefixes or an entry the model already held: inserting a
/// list adds nothing else.
pub proof fn lemma_insert_evolution_membership(
    pre: Seq<(Seq<u8>, CacheEntry)>,
    cap: nat,
    l: Seq<Shape>,
    w: int,
    h: int,
    d: int,
    post: Seq<(Seq<u8>, CacheEntry)>,
    j: nat,
)
    requires
        insert_evolution(pre, cap, l, w, h, d, post, j),
    ensures
        forall|q: int| #![trigger post[q]]
            0 <= q < post.len() ==> (exists|jj: int| #![trigger l.take(jj)]
                1 <= jj <= j && post[q].0 == encode_list(l.take(jj)) && post[q].1.list@ == l.take(
                    jj,
                )) || (exists|p: int| #![trigger pre[p]] 0 <= p < pre.len() && post[q] == pre[p]),
    decreases j,
{
    if j == 0 {
        assert forall|q: int| #![trigger post[q]] 0 <= q < post.len() implies (exists|jj: int|
            #![trigger l.take(jj)]
            1 <= jj <= j && post[q].0 == encode_list(l.take(jj)) && post[q].1.list@ == l.take(jj))
            || (exists|p: int| #![trigger pre[p]] 0 <= p < pre.len() && post[q] == pre[p]) by {
            assert(post[q] == pre[q]);
        }
    } else {
        let (mid, e) = choose|mid: Seq<(Seq<u8>, CacheEntry)>, e: (Seq<u8>, CacheEntry)|
            #![trigger lru_step(mid, cap, e)]
            insert_evolution(pre, cap, l, w, h, d, mid, (j - 1) as nat) && e.0 == encode_list(
                l.take(j as int),
            ) && e.1.list@ == l.take(j as int) && e.1.canvas@ == draw_list(
                blank_model(w, h, d),
                l.take(j as int),
            ) && post == lru_step(mid, cap, e);
        lemma_insert_evolution_membership(pre, cap, l, w, h, d, mid, (j - 1) as nat);
        lemma_remove_key_subset(mid, e.0);
        assert forall|q: int| #![trigger post[q]] 0 <= q < post.len() implies (exists|jj: int|
            #![trigger l.take(jj)]
            1 <= jj <= j && post[q].0 == encode_list(l.take(jj)) && post[q].1.list@ == l.take(jj))
            || (exists|p: int| #![trigger pre[p]] 0 <= p < pre.len() && post[q] == pre[p]) by {
            if q == 0 {
                assert(post[0] == e);
                assert(1 <= j <= j && post[0].0 == encode_list(l.take(j as int)) && post[0].1.list@
                    == l.take(j as int));
            } else {
                let prev = if has_key(mid, e.0) {
                    let r = remove_key(mid, e.0);
                    assert(post[q] == r[q - 1]);
                    let p0 = choose|p0: int|
                        0 <= p0 < mid.len() && r[q - 1] == #[trigger] mid[p0];
                    mid[p0]
                } else {
                    assert(post[q] == mid[q - 1]);
                    mid[q - 1]
                };
                assert(post[q] == prev);
                assert(exists|pm: int| 0 <= pm < mid.len() && prev == #[trigger] mid[pm]);
                let pm = choose|pm: int| 0 <= pm < mid.len() && prev == #[trigger] mid[pm];
                assert(mid[pm] == prev);
            }
        }
    }
}

/// LRU eviction at the cache's interface: inserting a single-shape
/// list whose key is fresh into a full cache stores its snapshot most
/// recently used, keeps every other entry except the least recently
/// touched one, in order, and drops exactly that one.
pub proof fn lemma_single_insert_eviction(
    pre: Seq<(Seq<u8>, CacheEntry)>,
    cap: nat,
    l: Seq<Shape>,
    w: int,
    h: int,
    d: int,
    post: Seq<(Seq<u8>, CacheEntry)>,
)
    requires
        insert_evolution(pre, cap, l, w, h, d, post, 1),
        l.len() == 1,
        pre.len() == cap,
        0 < cap,
        forall|i: int| 0 <= i < pre.len() ==> (#[trigger] pre[i]).0 != encode_list(l),
        forall|i: int, j: int|
            0 <= i < j < pre.len() ==> (#[trigger] pre[i]).0 != (#[trigger] pre[j]).0,
    ensures
        post.len() == cap,
        post[0].0 == encode_list(l),
        post[0].1.list@ == l,
        post[0].1.canvas@ == draw_list(blank_model(w, h, d), l),
        forall|q: int| 0 <= q < pre.len() - 1 ==> post[q + 1] == pre[q],
        forall|q: int| 0 <= q < post.len() ==> (#[trigger] post[q]).0 != pre.last().0,
{
    let (mid, e) = choose|mid: Seq<(Seq<u8>, CacheEntry)>, e: (Seq<u8>, CacheEntry)|
        #![trigger lru_step(mid, cap, e)]
        insert_evolution(pre, cap, l, w, h, d, mid, 0) && e.0 == encode_list(l.take(1)) && e.1.list@
            == l.take(1) && e.1.canvas@ == draw_list(blank_model(w, h, d), l.take(1)) && post
            == lru_step(mid, cap, e);
    assert(mid == pre);
    assert(l.take(1) =~= l);
    assert(!has_key(pre, e.0));
    assert(post == (seq![e] + pre).drop_last());
    lemma_lru_eviction(pre, e.0, e.1);
    assert(e == (e.0, e.1));
    assert(post.len() == cap);
}

/// The tail-mutation hit: after populating a fresh cache from `l`, a
/// lookup of a list that shares the first `k` shapes with `l` and
/// differs from `l`'s same-length prefix at every longer length hits
/// at exactly `k`.
pub proof fn lemma_tail_mutation_hit(
    cap: nat,
    l: Seq<Shape>,
    w: int,
    h: int,
    d: int,
    post: Seq<(Seq<u8>, CacheEntry)>,
    sl: Seq<Shape>,
    k: int,
)
    requires
        insert_evolution(Seq::empty(), cap, l, w, h, d, post, l.len()),
        sl.len() == l.len(),
        0 < k <= sl.len(),
        sl.take(k) == l.take(k),
        forall|j: int| #![trigger sl.take(j)] k < j <= sl.len() ==> sl.take(j) != l.take(j),
        entry_for(post, l.take(k)),
    ensures
        longest_cached(post, sl, sl.len()) == k,
{
    lemma_insert_evolution_membership(Seq::empty(), cap, l, w, h, d, post, l.len());
    assert forall|j: int| #![trigger sl.take(j)]
        k < j <= sl.len() implies !entry_for(post, sl.take(j)) by {
        if entry_for(post, sl.take(j)) {
            let q = choose|q: int|
                0 <= q < post.len() && (#[trigger] post[q]).0 == encode_list(sl.take(j))
                    && post[q].1.list@ == sl.take(j);
            assert(exists|jj: int| #![trigger l.take(jj)]
                1 <= jj <= l.len() && post[q].0 == encode_list(l.take(jj)) && post[q].1.list@
                    == l.take(jj));
            let jj = choose|jj: int| #![trigger l.take(jj)]
                1 <= jj <= l.len() && post[q].0 == encode_list(l.take(jj)) && post[q].1.list@
                    == l.take(jj);
            assert(sl.take(j) == l.take(jj));
            assert(sl.take(j).len() == j && l.take(jj).len() == jj);
            assert(j == jj);
            assert(false);
        }
    }
    assert(entry_for(post, sl.take(k)));
    lemma_longest_cached_is(post, sl, sl.len() as nat, k);
}

/// A bounded mapping from prefix keys to rendered canvas snapshots,
/// with least-recently-used eviction, plus running counters for
/// observability. Created once per run with the canvas dimensions
/// fixed; entries leave only by eviction.
pub struct CanvasCache {
    pub map: LruCache<Vec<u8>, CacheEntry, BuildHasherDefault<FnvHasher>>,
    pub width: usize,
    pub height: usize,
    pub depth: usize,
    pub hits: usize,
    pub misses: usize,
    pub requests: usize,
    pub shapes: usize,
}

impl CanvasCache {
    /// The model of the retained entries, most recently used first.
    pub open spec fn model(self) -> Seq<(Seq<u8>, CacheEntry)> {
        lru_model(&self.map)
    }

    /// The blank canvas of the cache's fixed dimensions.
    pub open spec fn blank(self) -> CanvasModel {
        blank_model(self.width as int, self.height as int, self.depth as int)
    }

    /// The fixed dimensions are valid canvas dimensions.
    pub open spec fn dims_ok(self) -> bool {
        &&& 1 <= self.width
        &&& 1 <= self.height
        &&& (self.depth == 1 || self.depth == 3 || self.depth == 4)
        &&& self.width * self.height * self.depth <= 0x3fff_ffff
    }

    /// The cache invariant: valid dimensions, the created capacity,
    /// pairwise distinct keys, and every retained snapshot sound for
    /// these dimensions.
    pub open spec fn wf(self) -> bool {
        &&& self.dims_ok()
        &&& lru_capacity(&self.map) == CACHE_CAPACITY
        &&& self.model().len() <= CACHE_CAPACITY
        &&& forall|i: int|
            0 <= i < self.model().len() ==> entry_ok(
                self.width as int,
                self.height as int,
                self.depth as int,
                (#[trigger] self.model()[i]).0,
                self.model()[i].1,
            )
        &&& forall|i: int, j: int|
            0 <= i < j < self.model().len() ==> (#[trigger] self.model()[i]).0 != (
            #[trigger] self.model()[j]).0
    }

    /// An empty cache for one run's fixed canvas dimensions.
    pub fn new(width: usize, height: usize, depth: usize) -> (cc: CanvasCache)
        requires
            1 <= width,
            1 <= height,
            depth == 1 || depth == 3 || depth == 4,
            width * height * depth <= 0x3fff_ffff,
        ensures
            cc.wf(),
            cc.width == width,
            cc.height == height,
            cc.depth == depth,
            cc.model() == Seq::<(Seq<u8>, CacheEntry)>::empty(),
            cc.hits == 0 && cc.misses == 0 && cc.requests == 0 && cc.shapes == 0,
    {
        CanvasCache {
            map: lru_new(CACHE_CAPACITY),
            width,
            height,
            depth,
            hits: 0,
            misses: 0,
            requests: 0,
            shapes: 0,
        }
    }

    /// Number of lookups served from a snapshot.
    pub fn hits(&self) -> (n: usize)
        ensures
            n == self.hits,
    {
        self.hits
    }

    /// Number of lookups that rendered from scratch.
    pub fn misses(&self) -> (n: usize)
        ensures
            n == self.misses,
    {
        self.misses
    }

    /// Number of `canvas_for` calls.
    pub fn requests(&self) -> (n: usize)
        ensures
            n == self.requests,
    {
        self.requests
    }

    /// Number of shapes served from snapshots rather than redrawn.
    pub fn shapes_reused(&self) -> (n: usize)
        ensures
            n == self.shapes,
    {
        self.shapes
    }

    /// Eagerly renders the list once, stepping one shape at a time, and
    /// stores a snapshot after each step, populating an entry for every
    /// prefix length from one to the list's length. The last
    /// `CACHE_CAPACITY` of those prefixes are retained afterwards, so
    /// future tail mutations of this list hit at one less than its
    /// length.
    pub fn insert(&mut self, sl: &ShapeList)
        requires
            old(self).wf(),
            sl.wf(),
        ensures
            final(self).wf(),
            final(self).width == old(self).width,
            final(self).height == old(self).height,
            final(self).depth == old(self).depth,
            final(self).hits == old(self).hits,
            final(self).misses == old(self).misses,
            final(self).requests == old(self).requests,
            final(self).shapes == old(self).shapes,
            forall|j: int|
                1 <= j <= sl@.len() && sl@.len() - j < CACHE_CAPACITY ==> entry_for(
                    final(self).model(),
                    sl@.take(j),
                ),
            insert_evolution(
                old(self).model(),
                CACHE_CAPACITY as nat,
                sl@,
                old(self).width as int,
                old(self).height as int,
                old(self).depth as int,
                final(self).model(),
                sl@.len(),
            ),
    {
        let ghost mdl0 = self.model();
        let n = sl.len();
        let mut canv = Canvas::new(self.width, self.height, self.depth);
        let mut i: usize = 0;
        while i < n
            invariant
                self.wf(),
                mdl0 == old(self).model(),
                insert_evolution(
                    mdl0,
                    CACHE_CAPACITY as nat,
                    sl@,
                    old(self).width as int,
                    old(self).height as int,
                    old(self).depth as int,
                    self.model(),
                    i as nat,
                ),
                self.width == old(self).width,
                self.height == old(self).height,
                self.depth == old(self).depth,
                self.hits == old(self).hits,
                self.misses == old(self).misses,
                self.requests == old(self).requests,
                self.shapes == old(self).shapes,
                sl.wf(),
                i <= n,
                n == sl@.len(),
                canv.wf(),
                canv@ == draw_list(self.blank(), sl@.take(i as int)),
                forall|j: int| #![trigger sl@.take(j)]
                    1 <= j <= i && i - j < CACHE_CAPACITY ==> exists|p: int|
                        0 <= p <= i - j && p < self.model().len() && (
                        #[trigger] self.model()[p]).0 == encode_list(sl@.take(j))
                            && self.model()[p].1.list@ == sl@.take(j),
            decreases n - i,
        {
            let ghost w = self.width as int;
            let ghost h = self.height as int;
            let ghost d = self.depth as int;
            let pref = sl.slice(i + 1);
            proof {
                assert(sl@.take(i + 1).drop_last() =~= sl@.take(i as int));
                assert(sl@.take(i + 1).last() == sl@[i as int]);
            }
            sl.draw_item_onto(i, &mut canv);
            let key = encode_key(&pref);
            let snap = canv.clone_canvas();
            let entry = CacheEntry { list: pref, canvas: snap };
            let ghost k = key@;
            let ghost v = entry;
            let ghost mdlb = self.model();
            proof {
                lemma_encode_len(sl@.take(i + 1));
            }
            lru_insert(&mut self.map, key, entry);
            proof {
                let mdla = self.model();
                assert(entry_ok(w, h, d, k, v));
                if exists|i0: int| 0 <= i0 < mdlb.len() && (#[trigger] mdlb[i0]).0 == k {
                    let i0 = choose|i0: int| 0 <= i0 < mdlb.len() && (#[trigger] mdlb[i0]).0 == k;
                    assert(mdla =~= seq![(k, v)] + mdlb.remove(i0));
                    lemma_remove_key_at(mdlb, k, i0);
                    assert(has_key(mdlb, k));
                    assert(mdla == lru_step(mdlb, CACHE_CAPACITY as nat, (k, v)));
                    assert forall|q: int| 1 <= q < mdla.len() implies mdla[q] == (if q - 1 < i0 {
                        mdlb[q - 1]
                    } else {
                        mdlb[q]
                    }) by {}
                    // every prior prefix entry survives, shifted by at most one
                    assert forall|j: int| #![trigger sl@.take(j)]
                        1 <= j <= i + 1 && i + 1 - j < CACHE_CAPACITY implies exists|p: int|
                        0 <= p <= i + 1 - j && p < mdla.len() && (#[trigger] mdla[p]).0
                            == encode_list(sl@.take(j)) && mdla[p].1.list@ == sl@.take(j) by {
                        if j == i + 1 {
                            assert(mdla[0].0 == encode_list(sl@.take(j)) && mdla[0].1.list@
                                == sl@.take(j));
                        } else {
                            let p = choose|p: int|
                                0 <= p <= i - j && p < mdlb.len() && (#[trigger] mdlb[p]).0
                                    == encode_list(sl@.take(j)) && mdlb[p].1.list@ == sl@.take(j);
                            lemma_encode_len(sl@.take(j));
                            assert(mdlb[p].0.len() == 18 * j);
                            assert(mdlb[i0].0.len() == 18 * (i + 1));
                            assert(p != i0);
                            let p2 = if p < i0 {
                                p + 1
                            } else {
                                p
                            };
                            assert(mdla[p2] == mdlb[p]);
                        }
                    }
                } else {
                    assert(!has_key(mdlb, k));
                    if mdlb.len() + 1 > CACHE_CAPACITY {
                        assert(mdla =~= (seq![(k, v)] + mdlb).drop_last());
                        assert(mdla.len() == mdlb.len());
                        assert forall|q: int| 1 <= q < mdla.len() implies mdla[q] == mdlb[q
                            - 1] by {}
                    } else {
                        assert(mdla =~= seq![(k, v)] + mdlb);
                        assert forall|q: int| 1 <= q < mdla.len() implies mdla[q] == mdlb[q
                            - 1] by {}
                    }
                    assert(mdla == lru_step(mdlb, CACHE_CAPACITY as nat, (k, v)));
                    assert forall|j: int| #![trigger sl@.take(j)]
                        1 <= j <= i + 1 && i + 1 - j < CACHE_CAPACITY implies exists|p: int|
                        0 <= p <= i + 1 - j && p < mdla.len() && (#[trigger] mdla[p]).0
                            == encode_list(sl@.take(j)) && mdla[p].1.list@ == sl@.take(j) by {
                        if j == i + 1 {
                            assert(mdla[0].0 == encode_list(sl@.take(j)) && mdla[0].1.list@
                                == sl@.take(j));
                        } else {
                            let p = choose|p: int|
                                0 <= p <= i - j && p < mdlb.len() && (#[trigger] mdlb[p]).0
                                    == encode_list(sl@.take(j)) && mdlb[p].1.list@ == sl@.take(j);
                            assert(p + 1 <= i + 1 - j < CACHE_CAPACITY);
                            assert(p + 1 < mdla.len());
                            assert(mdla[p + 1] == mdlb[p]);
                        }
                    }
                }
                // one more bounded-LRU step of the evolution
                assert(insert_evolution(
                    mdl0,
                    CACHE_CAPACITY as nat,
                    sl@,
                    old(self).width as int,
                    old(self).height as int,
                    old(self).depth as int,
                    mdla,
                    (i + 1) as nat,
                )) by {
                    assert(insert_evolution(
                        mdl0,
                        CACHE_CAPACITY as nat,
                        sl@,
                        old(self).width as int,
                        old(self).height as int,
                        old(self).depth as int,
                        mdlb,
                        i as nat,
                    ));
                    assert((k, v).0 == encode_list(sl@.take(i + 1)));
                    assert((k, v).1.list@ == sl@.take(i + 1));
                    assert((k, v).1.canvas@ == draw_list(
                        blank_model(
                            old(self).width as int,
                            old(self).height as int,
                            old(self).depth as int,
                        ),
                        sl@.take(i + 1),
                    ));
                    assert(mdla == lru_step(mdlb, CACHE_CAPACITY as nat, (k, v)));
                }
            }
            i = i + 1;
        }
        proof {
            assert forall|j: int| #![trigger sl@.take(j)]
                1 <= j <= sl@.len() && sl@.len() - j < CACHE_CAPACITY implies entry_for(
                self.model(),
                sl@.take(j),
            ) by {
                let p = choose|p: int|
                    0 <= p <= n - j && p < self.model().len() && (#[trigger] self.model()[p]).0
                        == encode_list(sl@.take(j)) && self.model()[p].1.list@ == sl@.take(j);
                assert(0 <= p < self.model().len() && self.model()[p].0 == encode_list(
                    sl@.take(j),
                ) && self.model()[p].1.list@ == sl@.take(j));
            }
        }
    }

    /// Returns the canvas the list renders to, reusing the longest
    /// cached prefix: probing runs from the whole list down to the
    /// shortest prefix, and the first snapshot found is extended by
    /// drawing the remaining shapes onto an independent copy. Without
    /// any cached prefix the whole list is rendered onto a fresh blank
    /// canvas. Whatever the cache holds, the result equals rendering
    /// the full list from a blank canvas.
    pub fn search_sublist(&mut self, sl: &ShapeList) -> (result: Canvas)
        requires
            old(self).wf(),
            sl.wf(),
        ensures
            final(self).wf(),
            final(self).width == old(self).width,
            final(self).height == old(self).height,
            final(self).depth == old(self).depth,
            final(self).requests == old(self).requests,
            result.wf(),
            result@ == draw_list(old(self).blank(), sl@),
            ({
                let k = longest_cached(old(self).model(), sl@, sl@.len());
                if k > 0 {
                    &&& final(self).hits == sat_add(old(self).hits as int, 1)
                    &&& final(self).misses == old(self).misses
                    &&& final(self).shapes == sat_add(old(self).shapes as int, k)
                } else {
                    &&& final(self).misses == sat_add(old(self).misses as int, 1)
                    &&& final(self).hits == old(self).hits
                    &&& final(self).shapes == old(self).shapes
                }
            }),
            longest_cached(old(self).model(), sl@, sl@.len()) == 0 ==> final(self).model() == old(
                self,
            ).model(),
            longest_cached(old(self).model(), sl@, sl@.len()) > 0 ==> ({
                let k = longest_cached(old(self).model(), sl@, sl@.len());
                exists|idx: int|
                    0 <= idx < old(self).model().len() && (#[trigger] old(self).model()[idx]).0
                        == encode_list(sl@.take(k)) && old(self).model()[idx].1.list@ == sl@.take(k)
                        && final(self).model() == seq![old(self).model()[idx]] + old(
                        self,
                    ).model().remove(idx)
            }),
    {
        let ghost mdl0 = self.model();
        let ghost blank0 = self.blank();
        let n = sl.len();
        let mut i: usize = 0;
        while i < n
            invariant
                self.wf(),
                self.width == old(self).width,
                self.height == old(self).height,
                self.depth == old(self).depth,
                self.hits == old(self).hits,
                self.misses == old(self).misses,
                self.requests == old(self).requests,
                self.shapes == old(self).shapes,
                self.model() == mdl0,
                mdl0 == old(self).model(),
                blank0 == self.blank(),
                blank0 == old(self).blank(),
                sl.wf(),
                i <= n,
                n == sl@.len(),
                forall|j: int| #![trigger sl@.take(j)]
                    n - i < j <= n ==> !entry_for(mdl0, sl@.take(j)),
            decreases n - i,
        {
            let pref = sl.slice(n - i);
            let key = encode_key(&pref);
            let got = lru_get(&mut self.map, &key);
            match got {
                Some(e) => {
                    let ghost hit_idx: int = choose|idx: int|
                        0 <= idx < mdl0.len() && mdl0[idx] == (key@, e) && self.model()
                            == seq![mdl0[idx]] + mdl0.remove(idx);
                    proof {
                        assert(entry_ok(
                            self.width as int,
                            self.height as int,
                            self.depth as int,
                            mdl0[hit_idx].0,
                            mdl0[hit_idx].1,
                        ));
                        lemma_encode_injective(e.list@, sl@.take(n - i));
                        assert(e.list@ == sl@.take(n - i));
                        assert(entry_for(mdl0, sl@.take(n - i)));
                        lemma_longest_cached_is(mdl0, sl@, n as nat, n - i);
                        // the refreshed model is the same entries with one
                        // slot moved to the front
                        let mdla = self.model();
                        assert forall|q: int| 1 <= q < mdla.len() implies mdla[q] == (if q - 1
                            < hit_idx {
                            mdl0[q - 1]
                        } else {
                            mdl0[q]
                        }) by {}
                        assert(mdla[0] == mdl0[hit_idx]);
                        assert(mdla.len() == mdl0.len());
                        assert(blank0.wf());
                        lemma_draw_list_wf(blank0, sl@.take(n - i));
                    }
                    let mut c = e.canvas;
                    let start = n - i;
                    let mut x = start;
                    while x < n
                        invariant
                            sl.wf(),
                            start <= x <= n,
                            n == sl@.len(),
                            c.wf(),
                            c@ == draw_list(blank0, sl@.take(x as int)),
                            mdl0 == old(self).model(),
                            blank0 == old(self).blank(),
                            longest_cached(mdl0, sl@, n as nat) == start as int,
                            0 <= hit_idx < mdl0.len(),
                            mdl0[hit_idx].0 == encode_list(sl@.take(start as int)),
                            mdl0[hit_idx].1.list@ == sl@.take(start as int),
                            self.model() == seq![mdl0[hit_idx]] + mdl0.remove(hit_idx),
                        decreases n - x,
                    {
                        proof {
                            assert(sl@.take(x + 1).drop_last() =~= sl@.take(x as int));
                            assert(sl@.take(x + 1).last() == sl@[x as int]);
                        }
                        sl.draw_item_onto(x, &mut c);
                        x = x + 1;
                    }
                    assert(sl@.take(n as int) =~= sl@);
                    self.hits = bump(self.hits, 1);
                    self.shapes = bump(self.shapes, start);
                    proof {
                        assert(self.model() == seq![mdl0[hit_idx]] + mdl0.remove(hit_idx));
                    }
                    return c;
                },
                None => {
                    proof {
                        assert forall|p: int|
                            0 <= p < mdl0.len() implies !((#[trigger] mdl0[p]).0 == encode_list(
                            sl@.take(n - i),
                        ) && mdl0[p].1.list@ == sl@.take(n - i)) by {
                            assert(mdl0[p].0 != key@);
                        }
                        assert(!entry_for(mdl0, sl@.take(n - i)));
                    }
                },
            }
            i = i + 1;
        }
        proof {
            lemma_longest_cached_none(mdl0, sl@, n as nat);
        }
        self.misses = bump(self.misses, 1);
        let mut c = Canvas::new(self.width, self.height, self.depth);
        sl.draw_onto(&mut c);
        c
    }

    /// The driver-facing lookup: counts the request and returns the
    /// canvas the list renders to, pixel-identical to rendering the
    /// full list onto a fresh blank canvas of the cache's dimensions,
    /// regardless of cache state.
    pub fn canvas_for(&mut self, sl: &ShapeList) -> (result: Canvas)
        requires
            old(self).wf(),
            sl.wf(),
        ensures
            final(self).wf(),
            final(self).width == old(self).width,
            final(self).height == old(self).height,
            final(self).depth == old(self).depth,
            result.wf(),
            result@ == draw_list(old(self).blank(), sl@),
            final(self).requests == sat_add(old(self).requests as int, 1),
            ({
                let k = longest_cached(old(self).model(), sl@, sl@.len());
                if k > 0 {
                    &&& final(self).hits == sat_add(old(self).hits as int, 1)
                    &&& final(self).misses == old(self).misses
                    &&& final(self).shapes == sat_add(old(self).shapes as int, k)
                } else {
                    &&& final(self).misses == sat_add(old(self).misses as int, 1)
                    &&& final(self).hits == old(self).hits
                    &&& final(self).shapes == old(self).shapes
                }
            }),
            longest_cached(old(self).model(), sl@, sl@.len()) == 0 ==> final(self).model() == old(
                self,
            ).model(),
            longest_cached(old(self).model(), sl@, sl@.len()) > 0 ==> ({
                let k = longest_cached(old(self).model(), sl@, sl@.len());
                exists|idx: int|
                    0 <= idx < old(self).model().len() && (#[trigger] old(self).model()[idx]).0
                        == encode_list(sl@.take(k)) && old(self).model()[idx].1.list@ == sl@.take(k)
                        && final(self).model() == seq![old(self).model()[idx]] + old(
                        self,
                    ).model().remove(idx)
            }),
    {
        self.requests = bump(self.requests, 1);
        self.search_sublist(sl)
    }
}

} // verus!
