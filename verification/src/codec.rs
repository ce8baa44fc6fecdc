//! The persistence codec for category lists. A category list is stored as
//! a count followed by the categories; each category carries its name as
//! length-prefixed UTF-8, the personal-best run, and the best-segment
//! records. Decoding rejects anything the encoder cannot have produced.

use vstd::prelude::*;
use vstd::utf8::{encode_utf8, decode_utf8, valid_utf8, encode_utf8_valid_utf8,
    encode_utf8_decode_utf8};
use crate::bytes::{
    le_bytes_of_u32, le_bytes_of_u64, u32_of_le_bytes, u64_of_le_bytes, lemma_le_u32_round_trip,
    lemma_le_u64_round_trip, push_le_u32, push_le_u64, read_le_u32, read_le_u64,
};
use crate::frame::SEGMENTS;
use crate::records::{
    Run, RunModel, Category, CategoryModel, run_wf, cat_wf, default_categories, zero_run,
    cats_view, is_default_categories,
};
use vstd::string::StrSliceExecFns;
use vstd::string::StringSliceAdditionalSpecFns;

verus! {

/// Encoding of a score vector: each entry as four little-endian bytes.
pub open spec fn enc_scores(s: Seq<u32>) -> Seq<u8>
    decreases s.len(),
{
    if s.len() == 0 {
        Seq::empty()
    } else {
        le_bytes_of_u32(s[0]) + enc_scores(s.drop_first())
    }
}

/// Encoding of a run: its segment scores, then its cumulative score.
pub open spec fn enc_run(r: RunModel) -> Seq<u8> {
    enc_scores(r.splits) + le_bytes_of_u32(r.score)
}

/// Encoding of a category: the name as length-prefixed UTF-8, then the
/// personal-best run, then the best-segment records.
pub open spec fn enc_cat(c: CategoryModel) -> Seq<u8> {
    le_bytes_of_u64(encode_utf8(c.name).len() as u64) + encode_utf8(c.name) + enc_run(
        c.personal_best,
    ) + enc_scores(c.best_splits)
}

/// Encoding of the categories themselves, in order.
pub open spec fn enc_cat_seq(cs: Seq<CategoryModel>) -> Seq<u8>
    decreases cs.len(),
{
    if cs.len() == 0 {
        Seq::empty()
    } else {
        enc_cat(cs[0]) + enc_cat_seq(cs.drop_first())
    }
}

/// Encoding of a whole category list: the count, then the categories.
pub open spec fn enc_cats(cs: Seq<CategoryModel>) -> Seq<u8> {
    le_bytes_of_u64(cs.len() as u64) + enc_cat_seq(cs)
}

/// Parses `n` score entries from the front of `d`: the values and the
/// number of bytes consumed, or nothing when `d` is too short.
pub open spec fn dec_scores(d: Seq<u8>, n: nat) -> Option<(Seq<u32>, int)> {
    if d.len() >= 4 * n {
        Some(
            (
                Seq::new(n, |i: int| u32_of_le_bytes(d.subrange(4 * i, 4 * i + 4))),
                4 * (n as int),
            ),
        )
    } else {
        None
    }
}

/// Parses one category from the front of `d`: the category and the number
/// of bytes consumed.
pub open spec fn dec_cat(d: Seq<u8>) -> Option<(CategoryModel, int)> {
    if d.len() < 8 {
        None
    } else {
        let nlen = u64_of_le_bytes(d.subrange(0, 8)) as int;
        if d.len() < 8 + nlen {
            None
        } else {
            let nbytes = d.subrange(8, 8 + nlen);
            if !valid_utf8(nbytes) {
                None
            } else {
                let rest = d.skip(8 + nlen);
                match dec_scores(rest, SEGMENTS as nat) {
                    Some((splits, u1)) => {
                        let rest2 = rest.skip(u1);
                        if rest2.len() < 4 {
                            None
                        } else {
                            let score = u32_of_le_bytes(rest2.subrange(0, 4));
                            let rest3 = rest2.skip(4);
                            match dec_scores(rest3, SEGMENTS as nat) {
                                Some((best, u2)) => Some(
                                    (
                                        CategoryModel {
                                            name: decode_utf8(nbytes),
                                            personal_best: RunModel { splits, score },
                                            best_splits: best,
                                        },
                                        8 + nlen + u1 + 4 + u2,
                                    ),
                                ),
                                None => None,
                            }
                        }
                    },
                    None => None,
                }
            }
        }
    }
}

/// Parses `n` categories from the front of `d`.
pub open spec fn dec_cat_seq(d: Seq<u8>, n: nat) -> Option<(Seq<CategoryModel>, int)>
    decreases n,
{
    if n == 0 {
        Some((Seq::empty(), 0))
    } else {
        match dec_cat(d) {
            Some((c, used)) => match dec_cat_seq(d.skip(used), (n - 1) as nat) {
                Some((cs, used2)) => Some((seq![c] + cs, used + used2)),
                None => None,
            },
            None => None,
        }
    }
}

/// What a stored byte string decodes to: the category list, provided the
/// count parses, every category parses, and no bytes are left over.
pub open spec fn spec_decode_categories(d: Seq<u8>) -> Option<Seq<CategoryModel>> {
    if d.len() < 8 {
        None
    } else {
        let n = u64_of_le_bytes(d.subrange(0, 8));
        match dec_cat_seq(d.skip(8), n as nat) {
            Some((cs, used)) => if used == d.len() - 8 {
                Some(cs)
            } else {
                None
            },
            None => None,
        }
    }
}

/// Appending one entry extends a score encoding on the right.
pub proof fn lemma_enc_scores_push(s: Seq<u32>, x: u32)
    ensures
        enc_scores(s.push(x)) == enc_scores(s) + le_bytes_of_u32(x),
    decreases s.len(),
{
    if s.len() == 0 {
        assert(s.push(x).drop_first() =~= Seq::<u32>::empty());
        assert(enc_scores(Seq::<u32>::empty()) =~= Seq::<u8>::empty());
        assert(s.push(x)[0] == x);
        assert(enc_scores(s.push(x)) =~= enc_scores(s) + le_bytes_of_u32(x));
    } else {
        assert(s.push(x).drop_first() =~= s.drop_first().push(x));
        lemma_enc_scores_push(s.drop_first(), x);
        assert(enc_scores(s.push(x)) =~= enc_scores(s) + le_bytes_of_u32(x));
    }
}

/// Appending one category extends a category-sequence encoding on the right.
pub proof fn lemma_enc_cat_seq_push(cs: Seq<CategoryModel>, c: CategoryModel)
    ensures
        enc_cat_seq(cs.push(c)) == enc_cat_seq(cs) + enc_cat(c),
    decreases cs.len(),
{
    if cs.len() == 0 {
        assert(cs.push(c).drop_first() =~= Seq::<CategoryModel>::empty());
        assert(enc_cat_seq(Seq::<CategoryModel>::empty()) =~= Seq::<u8>::empty());
        assert(cs.push(c)[0] == c);
        assert(enc_cat_seq(cs.push(c)) =~= enc_cat_seq(cs) + enc_cat(c));
    } else {
        assert(cs.push(c).drop_first() =~= cs.drop_first().push(c));
        lemma_enc_cat_seq_push(cs.drop_first(), c);
        assert(enc_cat_seq(cs.push(c)) =~= enc_cat_seq(cs) + enc_cat(c));
    }
}

/// A score encoding takes four bytes per entry.
pub proof fn lemma_enc_scores_len(s: Seq<u32>)
    ensures
        enc_scores(s).len() == 4 * s.len(),
    decreases s.len(),
{
    if s.len() > 0 {
        lemma_enc_scores_len(s.drop_first());
    }
}

/// Parsing the encoding of a score vector, whatever follows it, yields the
/// vector back and consumes exactly its bytes.
pub proof fn lemma_dec_of_enc_scores(s: Seq<u32>, rest: Seq<u8>)
    ensures
        dec_scores(enc_scores(s) + rest, s.len()) == Some((s, 4 * s.len() as int)),
    decreases s.len(),
{
    lemma_enc_scores_len(s);
    let d = enc_scores(s) + rest;
    if s.len() == 0 {
        let parsed = dec_scores(d, 0).unwrap().0;
        assert(parsed =~= s);
    } else {
        assert(d.skip(4) =~= enc_scores(s.drop_first()) + rest);
        lemma_dec_of_enc_scores(s.drop_first(), rest);
        let prev = dec_scores(d.skip(4), (s.len() - 1) as nat).unwrap().0;
        let parsed = dec_scores(d, s.len()).unwrap().0;
        assert forall|i: int| 0 <= i < s.len() implies parsed[i] == s[i] by {
            if i == 0 {
                assert(d.subrange(0, 4) =~= le_bytes_of_u32(s[0]));
                lemma_le_u32_round_trip(s[0]);
            } else {
                assert(d.subrange(4 * i, 4 * i + 4) =~= d.skip(4).subrange(
                    4 * (i - 1),
                    4 * (i - 1) + 4,
                ));
                assert(prev[i - 1] == s.drop_first()[i - 1]);
            }
        }
        assert(parsed =~= s);
    }
}

/// Parsing the encoding of a category, whatever follows it, yields the
/// category back and consumes exactly its bytes.
pub proof fn lemma_dec_of_enc_cat(c: CategoryModel, rest: Seq<u8>)
    requires
        cat_wf(c),
        encode_utf8(c.name).len() <= u64::MAX,
    ensures
        dec_cat(enc_cat(c) + rest) == Some((c, enc_cat(c).len() as int)),
{
    let nb = encode_utf8(c.name);
    let d = enc_cat(c) + rest;
    lemma_enc_scores_len(c.personal_best.splits);
    lemma_enc_scores_len(c.best_splits);
    assert(d.subrange(0, 8) =~= le_bytes_of_u64(nb.len() as u64));
    lemma_le_u64_round_trip(nb.len() as u64);
    let nlen = nb.len() as int;
    assert(d.subrange(8, 8 + nlen) =~= nb);
    encode_utf8_valid_utf8(c.name);
    encode_utf8_decode_utf8(c.name);
    let tail = enc_run(c.personal_best) + enc_scores(c.best_splits) + rest;
    assert(d.skip(8 + nlen) =~= enc_scores(c.personal_best.splits) + (le_bytes_of_u32(
        c.personal_best.score,
    ) + enc_scores(c.best_splits) + rest));
    lemma_dec_of_enc_scores(
        c.personal_best.splits,
        le_bytes_of_u32(c.personal_best.score) + enc_scores(c.best_splits) + rest,
    );
    let rest2 = d.skip(8 + nlen).skip(4 * SEGMENTS as int);
    assert(rest2 =~= le_bytes_of_u32(c.personal_best.score) + enc_scores(c.best_splits) + rest);
    assert(rest2.subrange(0, 4) =~= le_bytes_of_u32(c.personal_best.score));
    lemma_le_u32_round_trip(c.personal_best.score);
    let rest3 = rest2.skip(4);
    assert(rest3 =~= enc_scores(c.best_splits) + rest);
    lemma_dec_of_enc_scores(c.best_splits, rest);
    let parsed = dec_cat(d).unwrap().0;
    assert(parsed =~~= c);
    assert(dec_cat(d).unwrap().1 == enc_cat(c).len());
}

/// True when every category in the sequence can be stored: well-formed
/// records and a name whose UTF-8 form fits the length prefix.
pub open spec fn cats_storable(cs: Seq<CategoryModel>) -> bool {
    forall|i: int|
        0 <= i < cs.len() ==> cat_wf(#[trigger] cs[i]) && encode_utf8(cs[i].name).len()
            <= u64::MAX
}

/// Parsing the encoding of a category sequence, whatever follows it,
/// yields the sequence back and consumes exactly its bytes.
#[verifier::rlimit(50)]
pub proof fn lemma_dec_of_enc_cat_seq(cs: Seq<CategoryModel>, rest: Seq<u8>)
    requires
        cats_storable(cs),
    ensures
        dec_cat_seq(enc_cat_seq(cs) + rest, cs.len()) == Some(
            (cs, enc_cat_seq(cs).len() as int),
        ),
    decreases cs.len(),
{
    let d = enc_cat_seq(cs) + rest;
    if cs.len() == 0 {
        let parsed = dec_cat_seq(d, 0).unwrap().0;
        assert(parsed =~= cs);
    } else {
        assert(d =~= enc_cat(cs[0]) + (enc_cat_seq(cs.drop_first()) + rest));
        lemma_dec_of_enc_cat(cs[0], enc_cat_seq(cs.drop_first()) + rest);
        assert(d.skip(enc_cat(cs[0]).len() as int) =~= enc_cat_seq(cs.drop_first()) + rest);
        assert(cats_storable(cs.drop_first()));
        lemma_dec_of_enc_cat_seq(cs.drop_first(), rest);
        let parsed = dec_cat_seq(d, cs.len()).unwrap().0;
        assert(parsed =~= seq![cs[0]] + cs.drop_first());
        assert(seq![cs[0]] + cs.drop_first() =~= cs);
    }
}

/// Round trip: decoding an encoded category list yields that list back,
/// field for field.
pub proof fn lemma_codec_round_trip(cs: Seq<CategoryModel>)
    requires
        cats_storable(cs),
        cs.len() <= u64::MAX,
    ensures
        spec_decode_categories(enc_cats(cs)) == Some(cs),
{
    let d = enc_cats(cs);
    assert(d.subrange(0, 8) =~= le_bytes_of_u64(cs.len() as u64));
    lemma_le_u64_round_trip(cs.len() as u64);
    assert(d.skip(8) =~= enc_cat_seq(cs) + Seq::<u8>::empty());
    lemma_dec_of_enc_cat_seq(cs, Seq::empty());
    assert(enc_cat_seq(cs).len() == d.len() - 8);
}

/// Relies on String::from_utf8: it succeeds exactly on valid UTF-8 input,
/// and then returns the string whose UTF-8 encoding is the given bytes.
#[verifier::external_body]
fn string_from_utf8(v: Vec<u8>) -> (r: Option<String>)
    ensures
        r is Some <==> valid_utf8(v@),
        r matches Some(s) ==> encode_utf8(s@) == v@,
{
    String::from_utf8(v).ok()
}

/// Appends a copy of `b`.
fn append_bytes(out: &mut Vec<u8>, b: &Vec<u8>)
    ensures
        final(out)@ == old(out)@ + b@,
{
    let mut i: usize = 0;
    while i < b.len()
        invariant
            i <= b@.len(),
            out@ =~= old(out)@ + b@.take(i as int),
        decreases b@.len() - i,
    {
        out.push(b[i]);
        proof {
            assert(old(out)@ + b@.take(i + 1) =~= (old(out)@ + b@.take(i as int)).push(
                b@[i as int],
            ));
        }
        i += 1;
    }
    proof {
        assert(b@.take(b@.len() as int) =~= b@);
    }
}

/// A copy of `len` bytes starting at `start`.
fn copy_range(data: &Vec<u8>, start: usize, len: usize) -> (r: Vec<u8>)
    requires
        start + len <= data@.len(),
    ensures
        r@ == data@.subrange(start as int, start as int + len),
{
    let n = data.len();
    let mut r: Vec<u8> = Vec::new();
    let mut i: usize = 0;
    while i < len
        invariant
            i <= len,
            start + len <= n == data@.len(),
            r@ =~= data@.subrange(start as int, start as int + i),
        decreases len - i,
    {
        r.push(data[start + i]);
        proof {
            assert(data@.subrange(start as int, start as int + i + 1) =~= data@.subrange(
                start as int,
                start as int + i,
            ).push(data@[start + i]));
        }
        i += 1;
    }
    r
}

/// Appends the encoding of a score vector.
fn encode_scores(out: &mut Vec<u8>, v: &Vec<u32>)
    ensures
        final(out)@ == old(out)@ + enc_scores(v@),
{
    let mut i: usize = 0;
    while i < v.len()
        invariant
            i <= v@.len(),
            out@ == old(out)@ + enc_scores(v@.take(i as int)),
        decreases v@.len() - i,
    {
        push_le_u32(out, v[i]);
        proof {
            assert(v@.take(i + 1) =~= v@.take(i as int).push(v@[i as int]));
            lemma_enc_scores_push(v@.take(i as int), v@[i as int]);
            assert(out@ =~= old(out)@ + enc_scores(v@.take(i + 1)));
        }
        i += 1;
    }
    proof {
        assert(v@.take(v@.len() as int) =~= v@);
    }
}

/// Appends the encoding of one category.
fn encode_category(out: &mut Vec<u8>, c: &Category)
    ensures
        final(out)@ == old(out)@ + enc_cat(c@),
{
    let nb = c.name.as_str().as_bytes_vec();
    push_le_u64(out, nb.len() as u64);
    append_bytes(out, &nb);
    encode_scores(out, &c.personal_best.splits);
    push_le_u32(out, c.personal_best.score);
    encode_scores(out, &c.best_splits);
    proof {
        assert(out@ =~= old(out)@ + enc_cat(c@));
    }
}

/// Serializes a category list for the persistence store.
pub fn encode_categories(cats: &Vec<Category>) -> (out: Vec<u8>)
    ensures
        out@ == enc_cats(cats_view(cats@)),
{
    let mut out: Vec<u8> = Vec::new();
    push_le_u64(&mut out, cats.len() as u64);
    let mut i: usize = 0;
    while i < cats.len()
        invariant
            i <= cats@.len(),
            out@ == le_bytes_of_u64(cats@.len() as u64) + enc_cat_seq(cats_view(cats@).take(
                i as int,
            )),
        decreases cats@.len() - i,
    {
        encode_category(&mut out, &cats[i]);
        proof {
            assert(cats_view(cats@).take(i + 1) =~= cats_view(cats@).take(i as int).push(
                cats@[i as int]@,
            ));
            lemma_enc_cat_seq_push(cats_view(cats@).take(i as int), cats@[i as int]@);
            assert(out@ =~= le_bytes_of_u64(cats@.len() as u64) + enc_cat_seq(cats_view(
                cats@,
            ).take(i + 1)));
        }
        i += 1;
    }
    proof {
        assert(cats_view(cats@).take(cats@.len() as int) =~= cats_view(cats@));
    }
    out
}

/// Reads the fixed block of segment scores at `pos`.
fn read_scores(data: &Vec<u8>, pos: usize) -> (r: Option<(Vec<u32>, usize)>)
    requires
        pos <= data@.len(),
    ensures
        match r {
            Some(v) => {
                &&& dec_scores(data@.skip(pos as int), SEGMENTS as nat) == Some(
                    (v.0@, (v.1 - pos) as int),
                )
                &&& pos <= v.1 <= data@.len()
                &&& v.0@.len() == SEGMENTS
            },
            None => dec_scores(data@.skip(pos as int), SEGMENTS as nat) is None,
        },
{
    let n = data.len();
    if n - pos < 4 * SEGMENTS {
        return None;
    }
    let mut v: Vec<u32> = Vec::new();
    let mut i: usize = 0;
    while i < SEGMENTS
        invariant
            i <= SEGMENTS,
            pos + 4 * SEGMENTS <= n == data@.len(),
            v@.len() == i,
            forall|j: int|
                0 <= j < i ==> v@[j] == u32_of_le_bytes(
                    data@.subrange(pos + 4 * j, pos + 4 * j + 4),
                ),
        decreases SEGMENTS - i,
    {
        let w = read_le_u32(data, pos + 4 * i);
        v.push(w);
        i += 1;
    }
    proof {
        let d = data@.skip(pos as int);
        let parsed = dec_scores(d, SEGMENTS as nat).unwrap().0;
        assert forall|j: int| 0 <= j < SEGMENTS implies parsed[j] == v@[j] by {
            assert(d.subrange(4 * j, 4 * j + 4) =~= data@.subrange(pos + 4 * j, pos + 4 * j + 4));
        }
        assert(parsed =~= v@);
    }
    Some((v, pos + 4 * SEGMENTS))
}

/// Reads one category at `pos`.
fn read_category(data: &Vec<u8>, pos: usize) -> (r: Option<(Category, usize)>)
    requires
        pos <= data@.len(),
    ensures
        match r {
            Some(v) => {
                &&& dec_cat(data@.skip(pos as int)) == Some((v.0@, (v.1 - pos) as int))
                &&& pos <= v.1 <= data@.len()
                &&& v.0.wf()
            },
            None => dec_cat(data@.skip(pos as int)) is None,
        },
{
    let ghost d = data@.skip(pos as int);
    let n = data.len();
    if n - pos < 8 {
        return None;
    }
    let nlen64 = read_le_u64(data, pos);
    proof {
        assert(d.subrange(0, 8) =~= data@.subrange(pos as int, pos as int + 8));
    }
    if nlen64 > (n - pos - 8) as u64 {
        return None;
    }
    let nlen = nlen64 as usize;
    let nb = copy_range(data, pos + 8, nlen);
    let ghost nbytes = d.subrange(8, 8 + nlen as int);
    proof {
        assert(nbytes =~= nb@);
    }
    let name = match string_from_utf8(nb) {
        Some(name) => name,
        None => {
            return None;
        },
    };
    proof {
        encode_utf8_decode_utf8(name@);
        assert(decode_utf8(nbytes) == name@);
    }
    let p1 = pos + 8 + nlen;
    proof {
        assert(d.skip(8 + nlen as int) =~= data@.skip(p1 as int));
    }
    let (splits, p2) = match read_scores(data, p1) {
        Some(v) => v,
        None => {
            return None;
        },
    };
    if n - p2 < 4 {
        proof {
            let rest = d.skip(8 + nlen as int);
            assert(rest.skip(4 * SEGMENTS as int) =~= data@.skip(p2 as int));
        }
        return None;
    }
    let score = read_le_u32(data, p2);
    proof {
        let rest = d.skip(8 + nlen as int);
        let rest2 = rest.skip(4 * SEGMENTS as int);
        assert(rest2 =~= data@.skip(p2 as int));
        assert(rest2.subrange(0, 4) =~= data@.subrange(p2 as int, p2 as int + 4));
        assert(rest2.skip(4) =~= data@.skip(p2 as int + 4));
    }
    let p3 = p2 + 4;
    let (best, p4) = match read_scores(data, p3) {
        Some(v) => v,
        None => {
            return None;
        },
    };
    let c = Category { personal_best: Run { splits, score }, best_splits: best, name };
    proof {
        let parsed = dec_cat(d).unwrap();
        assert(parsed.0 =~~= c@);
        assert(parsed.1 == p4 - pos);
    }
    Some((c, p4))
}

/// Reads `count` categories starting at `pos`.
fn read_categories(data: &Vec<u8>, pos: usize, count: u64) -> (r: Option<(Vec<Category>, usize)>)
    requires
        pos <= data@.len(),
    ensures
        match r {
            Some(v) => {
                &&& dec_cat_seq(data@.skip(pos as int), count as nat) == Some(
                    (cats_view(v.0@), (v.1 - pos) as int),
                )
                &&& pos <= v.1 <= data@.len()
                &&& forall|i: int| 0 <= i < v.0@.len() ==> cat_wf(#[trigger] v.0@[i]@)
            },
            None => dec_cat_seq(data@.skip(pos as int), count as nat) is None,
        },
    decreases count,
{
    if count == 0 {
        let v: Vec<Category> = Vec::new();
        proof {
            assert(cats_view(v@) =~= Seq::<CategoryModel>::empty());
        }
        return Some((v, pos));
    }
    let (c, p2) = match read_category(data, pos) {
        Some(v) => v,
        None => {
            return None;
        },
    };
    proof {
        assert(data@.skip(pos as int).skip(p2 - pos) =~= data@.skip(p2 as int));
    }
    let (mut v, p3) = match read_categories(data, p2, count - 1) {
        Some(v) => v,
        None => {
            return None;
        },
    };
    let ghost tail = cats_view(v@);
    v.insert(0, c);
    proof {
        assert(cats_view(v@) =~= seq![c@] + tail);
    }
    Some((v, p3))
}

/// Deserializes a stored category list. Returns nothing when the bytes are
/// not exactly an encoded list.
pub fn decode_categories(data: &Vec<u8>) -> (r: Option<Vec<Category>>)
    ensures
        match r {
            Some(v) => {
                &&& spec_decode_categories(data@) == Some(cats_view(v@))
                &&& forall|i: int| 0 <= i < v@.len() ==> cat_wf(#[trigger] v@[i]@)
            },
            None => spec_decode_categories(data@) is None,
        },
{
    let n = data.len();
    if n < 8 {
        return None;
    }
    let count = read_le_u64(data, 0);
    proof {
        assert(data@.subrange(0, 8) =~= data@.subrange(0 as int, 0 as int + 8));
    }
    let (v, p) = match read_categories(data, 8, count) {
        Some(v) => v,
        None => {
            return None;
        },
    };
    if p == n {
        Some(v)
    } else {
        None
    }
}

/// Loads the category list from the persistence store's contents: absence
/// of the store, an undecodable store or an empty list all fall back to
/// the default bootstrap set.
pub fn load_categories(data: Option<&Vec<u8>>) -> (r: Vec<Category>)
    ensures
        r@.len() >= 1,
        forall|i: int| 0 <= i < r@.len() ==> cat_wf(#[trigger] r@[i]@),
        match data {
            Some(d) => match spec_decode_categories(d@) {
                Some(cs) => if cs.len() > 0 {
                    cats_view(r@) == cs
                } else {
                    is_default_categories(cats_view(r@))
                },
                None => is_default_categories(cats_view(r@)),
            },
            None => is_default_categories(cats_view(r@)),
        },
{
    match data {
        Some(d) => match decode_categories(d) {
            Some(v) => {
                if v.len() > 0 {
                    v
                } else {
                    default_categories()
                }
            },
            None => default_categories(),
        },
        None => default_categories(),
    }
}

} // verus!
