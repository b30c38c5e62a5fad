use vstd::prelude::*;

use crate::codec::{gpx_bytes_of, serialize_gpx};
use crate::model::{Document, DocumentView, Wpt, WptView};
use crate::paths::{change_file_name, change_file_name_spec, file_stem, file_stem_of};
use crate::text::{dec_of, format_dec};
use vstd::arithmetic::div_mod::{
    lemma_basic_div, lemma_div_by_self, lemma_fundamental_div_mod,
    lemma_fundamental_div_mod_converse, lemma_mod_bound, lemma_mod_self_0, lemma_small_mod,
};
use vstd::math::min;
use vstd::string::StringExecFns;

verus! {

/// One output file: where it goes and the bytes it holds.
pub struct OutputFile {
    pub path: String,
    pub content: Vec<u8>,
}

/// Why writing failed.
#[derive(Debug)]
pub enum WriteError {
    /// The codec refused to serialize a document; its diagnostic is carried
    /// along.
    Serialize(gpx::errors::GpxError),
}

/// The chunk size the writer uses: the caller's, or the whole waypoint count
/// where the caller gave none.
pub open spec fn effective_batch(n: nat, batch: Option<usize>) -> nat {
    match batch {
        Some(k) => k as nat,
        None => n,
    }
}

/// Whether everything goes into one file at the original path: no batch
/// size, a zero one, one at least the waypoint count, or no waypoints.
pub open spec fn single_file(n: nat, batch: Option<usize>) -> bool {
    ||| n <= effective_batch(n, batch)
    ||| effective_batch(n, batch) == 0
    ||| n == 0
}

/// How many chunks of size `k` cover `n` items: `n / k` rounded upward.
pub open spec fn batch_count(n: nat, k: nat) -> nat
    recommends
        k > 0,
{
    if n % k == 0 {
        n / k
    } else {
        n / k + 1
    }
}

/// `s` cut into consecutive chunks of `k` items each, the last one shorter
/// where `k` does not divide the length.
pub open spec fn chunks_of(s: Seq<WptView>, k: nat) -> Seq<Seq<WptView>>
    recommends
        k > 0,
{
    Seq::new(
        batch_count(s.len(), k),
        |i: int| s.subrange(i * k, min(i * k + k as int, s.len() as int)),
    )
}

/// The documents the writer produces: the input whole, or one document per
/// chunk of its waypoints, each around the same opaque remainder.
pub open spec fn batch_docs(d: DocumentView, batch: Option<usize>) -> Seq<DocumentView> {
    if single_file(d.waypoints.len(), batch) {
        seq![d]
    } else {
        chunks_of(d.waypoints, effective_batch(d.waypoints.len(), batch)).map_values(
            |c: Seq<WptView>| DocumentView { base: d.base, waypoints: c },
        )
    }
}

/// Where the i-th output file goes: the original path for a single file,
/// else the path with `_<i+1>` appended to its file stem.
pub open spec fn batch_path(p: Seq<char>, single: bool, i: int) -> Seq<char> {
    if single {
        p
    } else {
        change_file_name_spec(p, file_stem_of(p) + seq!['_'] + dec_of((i + 1) as nat))
    }
}

proof fn lemma_chunk_start(n: nat, k: nat, i: int)
    requires
        1 <= k,
        0 <= i < batch_count(n, k),
    ensures
        i * k < n,
{
    let q = n / k;
    let r = n % k;
    lemma_fundamental_div_mod(n as int, k as int);
    if r == 0 {
        assert(i * k < n) by (nonlinear_arith)
            requires
                0 <= i < q,
                n == k * q,
                1 <= k,
        ;
    } else {
        assert(i * k < n) by (nonlinear_arith)
            requires
                0 <= i <= q,
                n == k * q + r,
                1 <= r,
                1 <= k,
        ;
    }
}

proof fn lemma_chunks_decompose(s: Seq<WptView>, k: nat)
    requires
        1 <= k,
        k < s.len(),
    ensures
        chunks_of(s, k) =~= seq![s.take(k as int)] + chunks_of(s.skip(k as int), k),
{
    let n = s.len();
    let m = s.skip(k as int).len();
    assert(batch_count(n, k) == 1 + batch_count(m, k)) by {
        assert(n == m + k);
        lemma_fundamental_div_mod(m as int, k as int);
        lemma_mod_bound(m as int, k as int);
        assert(n as int == (m / k + 1) * (k as int) + (m % k)) by (nonlinear_arith)
            requires
                1 <= k,
                n == m + k,
                m as int == (k as int) * ((m as int) / (k as int)) + (m as int) % (k as int),
        ;
        lemma_fundamental_div_mod_converse(n as int, k as int, (m / k + 1) as int, (m % k) as int);
    }
    assert forall|i: int|
        0 <= i < batch_count(n, k) implies chunks_of(s, k)[i] == (seq![s.take(k as int)]
        + chunks_of(s.skip(k as int), k))[i] by {
        lemma_chunk_start(n, k, i);
        if i == 0 {
            assert(chunks_of(s, k)[0] =~= s.take(k as int));
        } else {
            assert((i - 1) * k == i * k - k) by (nonlinear_arith);
            lemma_chunk_start(m, k, i - 1);
            assert(chunks_of(s, k)[i] =~= chunks_of(s.skip(k as int), k)[i - 1]);
        }
    }
}

/// Law: chunking loses nothing — the concatenation of the chunks, in order,
/// is the original sequence.
pub proof fn lemma_chunks_flatten(s: Seq<WptView>, k: nat)
    requires
        1 <= k,
    ensures
        chunks_of(s, k).flatten() == s,
    decreases s.len(),
{
    if s.len() == 0 {
        lemma_basic_div(0, k as int);
        lemma_small_mod(0, k);
        assert(chunks_of(s, k) =~= Seq::<Seq<WptView>>::empty());
        assert(Seq::<Seq<WptView>>::empty().flatten() =~= Seq::<WptView>::empty());
        assert(chunks_of(s, k).flatten() =~= s);
    } else if s.len() <= k {
        assert(batch_count(s.len(), k) == 1) by {
            if s.len() < k {
                lemma_basic_div(s.len() as int, k as int);
                lemma_small_mod(s.len(), k);
            } else {
                lemma_div_by_self(k as int);
                lemma_mod_self_0(k as int);
            }
        }
        assert(chunks_of(s, k) =~~= seq![s]);
        assert(seq![s].drop_first() =~= Seq::<Seq<WptView>>::empty());
        assert(Seq::<Seq<WptView>>::empty().flatten() =~= Seq::<WptView>::empty());
        assert(seq![s].flatten() =~= s);
    } else {
        lemma_chunks_flatten(s.skip(k as int), k);
        lemma_chunks_decompose(s, k);
        let rest = chunks_of(s.skip(k as int), k);
        let whole = seq![s.take(k as int)] + rest;
        assert(whole.drop_first() =~= rest);
        assert(whole.first() == s.take(k as int));
        assert(whole.flatten() == s.take(k as int) + rest.flatten());
        assert(s.take(k as int) + s.skip(k as int) =~= s);
    }
}

/// Law: where everything fits one file — no batch size, a zero one, one at
/// least the waypoint count, or no waypoints — the writer produces exactly
/// one document: the input itself, all its waypoints included.
pub proof fn lemma_single_batch(d: DocumentView, batch: Option<usize>)
    requires
        single_file(d.waypoints.len(), batch),
    ensures
        batch_docs(d, batch) =~= seq![d],
{
}

/// Law: with a batch size `k`, `0 < k <` the waypoint count, the writer
/// produces `ceil(count / k)` documents; each carries at most `k` waypoints
/// and the same opaque remainder, and the concatenation of their waypoint
/// sequences, in file order, is exactly the input's waypoint sequence.
pub proof fn lemma_batch_partition(d: DocumentView, k: usize)
    requires
        0 < k < d.waypoints.len(),
    ensures
        batch_docs(d, Some(k)).len() == batch_count(d.waypoints.len(), k as nat),
        forall|i: int|
            0 <= i < batch_docs(d, Some(k)).len() ==> (#[trigger] batch_docs(d, Some(k))[i])
                .waypoints.len() <= k,
        forall|i: int|
            0 <= i < batch_docs(d, Some(k)).len() ==> (#[trigger] batch_docs(d, Some(k))[i]).base
                == d.base,
        batch_docs(d, Some(k)).map_values(|b: DocumentView| b.waypoints).flatten()
            == d.waypoints,
{
    let n = d.waypoints.len();
    assert forall|i: int|
        0 <= i < batch_docs(d, Some(k)).len() implies (#[trigger] batch_docs(d, Some(k))[i])
        .waypoints.len() <= k by {
        lemma_chunk_start(n, k as nat, i);
    }
    assert(batch_docs(d, Some(k)).map_values(|b: DocumentView| b.waypoints) =~= chunks_of(
        d.waypoints,
        k as nat,
    ));
    lemma_chunks_flatten(d.waypoints, k as nat);
}

/// Produce the output files for `gpx`: a single file at `path` holding the
/// whole document, or — with a batch size smaller than the waypoint count —
/// one file per consecutive chunk of at most `batch` waypoints, at paths
/// numbered `_1`, `_2`, ... after the file stem of `path`. Each file holds
/// the serialized bytes of its document; the first serialization failure
/// aborts the whole operation.
pub fn write_gpx(gpx: &Document, path: &str, batch: &Option<usize>) -> (r: Result<
    Vec<OutputFile>,
    WriteError,
>)
    ensures
        r is Ok ==> ({
            let plan = batch_docs(gpx@, *batch);
            let single = single_file(gpx@.waypoints.len(), *batch);
            &&& r->Ok_0@.len() == plan.len()
            &&& forall|i: int| 0 <= i < plan.len() ==> gpx_bytes_of(#[trigger] plan[i]) is Some
            &&& forall|i: int|
                0 <= i < plan.len() ==> (#[trigger] r->Ok_0@[i]).content@ == gpx_bytes_of(
                    plan[i],
                )->Some_0
            &&& forall|i: int|
                0 <= i < plan.len() ==> (#[trigger] r->Ok_0@[i]).path@ == batch_path(
                    path@,
                    single,
                    i,
                )
        }),
        r is Err ==> exists|i: int|
            0 <= i < batch_docs(gpx@, *batch).len() && gpx_bytes_of(
                #[trigger] batch_docs(gpx@, *batch)[i],
            ) is None,
{
    let n = gpx.waypoints.len();
    let k = match batch {
        Some(b) => *b,
        None => n,
    };
    if n <= k || k == 0 || n == 0 {
        proof {
            assert(batch_docs(gpx@, *batch) =~= seq![gpx@]);
        }
        match serialize_gpx(gpx) {
            Ok(bytes) => {
                let mut out: Vec<OutputFile> = Vec::new();
                out.push(OutputFile { path: String::from_str(path), content: bytes });
                Ok(out)
            },
            Err(e) => {
                proof {
                    assert(gpx_bytes_of(batch_docs(gpx@, *batch)[0]) is None);
                }
                Err(WriteError::Serialize(e))
            },
        }
    } else {
        let ghost plan = batch_docs(gpx@, *batch);
        proof {
            assert(plan =~= chunks_of(gpx@.waypoints, k as nat).map_values(
                |c: Seq<WptView>| DocumentView { base: gpx@.base, waypoints: c },
            ));
        }
        let q = n / k;
        let rem = n % k;
        proof {
            lemma_fundamental_div_mod(n as int, k as int);
            lemma_mod_bound(n as int, k as int);
            if rem != 0 {
                assert(q + 1 <= n) by (nonlinear_arith)
                    requires
                        1 <= k,
                        n == k * q + rem,
                        1 <= rem,
                        0 <= q,
                ;
            }
        }
        let count = if rem == 0 {
            q
        } else {
            q + 1
        };
        let stem = file_stem(path);
        let mut out: Vec<OutputFile> = Vec::new();
        let mut i: usize = 0;
        while i < count
            invariant
                1 <= k < n,
                n == gpx@.waypoints.len(),
                count == batch_count(n as nat, k as nat),
                effective_batch(gpx@.waypoints.len(), *batch) == k as nat,
                plan == batch_docs(gpx@, *batch),
                plan.len() == count,
                !single_file(gpx@.waypoints.len(), *batch),
                stem@ == file_stem_of(path@),
                i <= count,
                out@.len() == i,
                forall|j: int|
                    0 <= j < i ==> gpx_bytes_of(#[trigger] plan[j]) is Some,
                forall|j: int|
                    0 <= j < i ==> (#[trigger] out@[j]).content@ == gpx_bytes_of(plan[j])->Some_0,
                forall|j: int|
                    0 <= j < i ==> (#[trigger] out@[j]).path@ == batch_path(path@, false, j),
            decreases count - i,
        {
            proof {
                lemma_chunk_start(n as nat, k as nat, i as int);
            }
            let start = i * k;
            let end = if n - start < k {
                n
            } else {
                start + k
            };
            let mut chunk: Vec<Wpt> = Vec::new();
            let mut j: usize = start;
            proof {
                assert(chunk.deep_view() =~= gpx@.waypoints.subrange(start as int, start as int));
            }
            while j < end
                invariant
                    start <= j <= end,
                    end <= gpx.waypoints@.len(),
                    n == gpx@.waypoints.len(),
                    chunk.deep_view() == gpx@.waypoints.subrange(start as int, j as int),
                decreases end - j,
            {
                let ghost prev = chunk.deep_view();
                let w = gpx.waypoints[j].duplicate();
                chunk.push(w);
                proof {
                    assert(chunk.deep_view() =~= prev.push(gpx@.waypoints[j as int]));
                    assert(chunk.deep_view() =~= gpx@.waypoints.subrange(start as int, j + 1));
                }
                j = j + 1;
            }
            let doc = Document { base: crate::model::clone_base(&gpx.base), waypoints: chunk };
            proof {
                assert(doc@.waypoints =~= gpx@.waypoints.subrange(
                    i as int * k as int,
                    min(i as int * k as int + k as int, n as int),
                ));
                assert(doc@ == plan[i as int]);
            }
            let num = format_dec((i + 1) as u128);
            let mut fname = stem.clone();
            fname.append("_");
            fname.append(num.as_str());
            proof {
                reveal_strlit("_");
                assert("_"@ =~= seq!['_']);
                assert(fname@ =~= file_stem_of(path@) + seq!['_'] + dec_of((i + 1) as nat));
            }
            let fpath = change_file_name(path, fname.as_str());
            match serialize_gpx(&doc) {
                Ok(bytes) => {
                    out.push(OutputFile { path: fpath, content: bytes });
                },
                Err(e) => {
                    proof {
                        assert(gpx_bytes_of(plan[i as int]) is None);
                    }
                    return Err(WriteError::Serialize(e));
                },
            }
            i = i + 1;
        }
        Ok(out)
    }
}

} // verus!
