use vstd::prelude::*;
use crate::classify::{loop_keywords, spec_detect_tempo, spec_detect_type, spec_extract_tempo, spec_is_loop};
use crate::model::{Pack, Sample, SampleLibrary, SampleType, SearchParams};
use crate::search::{
    insert_desc, lemma_insert_desc_at, lib_hits, pack_selected, sample_hits, sort_desc,
    spec_excluded, spec_limit, spec_relevance, spec_search, spec_tokens, token_excludes,
};
use crate::text::{
    all_digits, contains_at, digits_val, find_char, has_substring, lemma_find_char,
    lower, parse_int,
};

verus! {

proof fn lemma_insert_desc_len(x: (Sample, int), s: Seq<(Sample, int)>)
    ensures
        insert_desc(x, s).len() == s.len() + 1,
    decreases s.len(),
{
    if s.len() == 0 {
    } else if x.1 > s[0].1 {
    } else {
        lemma_insert_desc_len(x, s.subrange(1, s.len() as int));
    }
}

proof fn lemma_sort_desc_len(s: Seq<(Sample, int)>)
    ensures
        sort_desc(s).len() == s.len(),
    decreases s.len(),
{
    if s.len() > 0 {
        lemma_sort_desc_len(s.drop_last());
        lemma_insert_desc_len(s.last(), sort_desc(s.drop_last()));
    }
}

proof fn lemma_insert_desc_member(
    x: (Sample, int),
    s: Seq<(Sample, int)>,
    i: int,
)
    requires
        0 <= i < insert_desc(x, s).len(),
    ensures
        insert_desc(x, s)[i] == x || exists|j: int|
            0 <= j < s.len() && insert_desc(x, s)[i] == #[trigger] s[j],
    decreases s.len(),
{
    if s.len() == 0 {
    } else if x.1 > s[0].1 {
    } else {
        let t = s.subrange(1, s.len() as int);
        if i == 0 {
            assert(insert_desc(x, s)[0] == s[0]);
        } else {
            lemma_insert_desc_member(x, t, i - 1);
            assert(insert_desc(x, s)[i] == insert_desc(x, t)[i - 1]);
            if insert_desc(x, t)[i - 1] == x {
            } else {
                let j = choose|j: int| 0 <= j < t.len() && insert_desc(x, t)[i - 1] == #[trigger] t[j];
                assert(insert_desc(x, s)[i] == s[j + 1]);
            }
        }
    }
}

proof fn lemma_sort_desc_member(s: Seq<(Sample, int)>, i: int)
    requires
        0 <= i < sort_desc(s).len(),
    ensures
        exists|j: int| 0 <= j < s.len() && sort_desc(s)[i] == #[trigger] s[j],
    decreases s.len(),
{
    let prev = sort_desc(s.drop_last());
    lemma_sort_desc_len(s.drop_last());
    lemma_insert_desc_member(s.last(), prev, i);
    if sort_desc(s)[i] == s.last() {
        assert(sort_desc(s)[i] == s[s.len() - 1]);
    } else {
        let j = choose|j: int| 0 <= j < prev.len() && sort_desc(s)[i] == #[trigger] prev[j];
        lemma_sort_desc_member(s.drop_last(), j);
        let k = choose|k: int| 0 <= k < s.drop_last().len() && prev[j] == #[trigger] s.drop_last()[k];
        assert(sort_desc(s)[i] == s[k]);
    }
}

proof fn lemma_sample_hits_scored(
    q: SearchParams,
    samples: Seq<Sample>,
    tokens: Seq<Seq<char>>,
    i: int,
)
    requires
        0 <= i < sample_hits(q, samples, tokens).len(),
    ensures
        exists|si: int|
            0 <= si < samples.len() && #[trigger] samples[si] == sample_hits(q, samples, tokens)[i].0,
        sample_hits(q, samples, tokens)[i].1 == spec_relevance(
            q,
            sample_hits(q, samples, tokens)[i].0,
            tokens,
        ),
        sample_hits(q, samples, tokens)[i].1 > 0,
    decreases samples.len(),
{
    let rest = sample_hits(q, samples.drop_last(), tokens);
    let r = spec_relevance(q, samples.last(), tokens);
    if r > 0 && i == rest.len() {
        assert(samples[samples.len() - 1] == sample_hits(q, samples, tokens)[i].0);
    } else {
        lemma_sample_hits_scored(q, samples.drop_last(), tokens, i);
        let si = choose|si: int|
            0 <= si < samples.drop_last().len() && #[trigger] samples.drop_last()[si] == rest[i].0;
        assert(samples[si] == sample_hits(q, samples, tokens)[i].0);
    }
}

proof fn lemma_lib_hits_scored(
    q: SearchParams,
    packs: Seq<Pack>,
    tokens: Seq<Seq<char>>,
    i: int,
)
    requires
        0 <= i < lib_hits(q, packs, tokens).len(),
    ensures
        exists|pi: int, si: int|
            {
                &&& 0 <= pi < packs.len()
                &&& pack_selected(q, packs[pi])
                &&& 0 <= si < packs[pi].samples@.len()
                &&& #[trigger] packs[pi].samples@[si] == lib_hits(q, packs, tokens)[i].0
            },
        lib_hits(q, packs, tokens)[i].1 == spec_relevance(q, lib_hits(q, packs, tokens)[i].0, tokens),
        lib_hits(q, packs, tokens)[i].1 > 0,
    decreases packs.len(),
{
    let rest = lib_hits(q, packs.drop_last(), tokens);
    if i < rest.len() {
        lemma_lib_hits_scored(q, packs.drop_last(), tokens, i);
        let (pi, si): (int, int) = choose|pi: int, si: int|
            {
                &&& 0 <= pi < packs.drop_last().len()
                &&& pack_selected(q, packs.drop_last()[pi])
                &&& 0 <= si < packs.drop_last()[pi].samples@.len()
                &&& #[trigger] packs.drop_last()[pi].samples@[si] == rest[i].0
            };
        assert(packs[pi] == packs.drop_last()[pi]);
        assert(packs[pi].samples@[si] == lib_hits(q, packs, tokens)[i].0);
    } else {
        assert(pack_selected(q, packs.last()));
        let inner = sample_hits(q, packs.last().samples@, tokens);
        assert(lib_hits(q, packs, tokens)[i] == inner[i - rest.len()]);
        lemma_sample_hits_scored(q, packs.last().samples@, tokens, i - rest.len());
        let ii = i - rest.len();
        let si = choose|si: int|
            0 <= si < packs.last().samples@.len() && #[trigger] packs.last().samples@[si]
                == inner[ii].0;
        assert(packs[packs.len() - 1].samples@[si] == lib_hits(q, packs, tokens)[i].0);
    }
}

/// LAW: provenance and positivity of results. Every sample a search
/// returns belongs to a pack that passed the pack filter, and its
/// relevance against the query's tokens is strictly positive.
pub proof fn lemma_search_result_provenance(lib: SampleLibrary, q: SearchParams, i: int)
    requires
        0 <= i < spec_search(lib, q).len(),
    ensures
        exists|pi: int, si: int|
            {
                &&& 0 <= pi < lib.packs@.len()
                &&& pack_selected(q, lib.packs@[pi])
                &&& 0 <= si < lib.packs@[pi].samples@.len()
                &&& #[trigger] lib.packs@[pi].samples@[si] == spec_search(lib, q)[i]
            },
        spec_relevance(q, spec_search(lib, q)[i], spec_tokens(q.query@)) > 0,
{
    let tokens = spec_tokens(q.query@);
    let hits = lib_hits(q, lib.packs@, tokens);
    let sorted = sort_desc(hits);
    lemma_sort_desc_len(hits);
    assert(spec_search(lib, q)[i] == sorted[i].0);
    lemma_sort_desc_member(hits, i);
    let j = choose|j: int| 0 <= j < hits.len() && sorted[i] == #[trigger] hits[j];
    lemma_lib_hits_scored(q, lib.packs@, tokens, j);
}

/// LAW: the pack filter. When a query names a `pack_id`, every
/// returned sample belongs to a pack with exactly that name.
pub proof fn lemma_pack_filter(lib: SampleLibrary, q: SearchParams, i: int)
    requires
        q.pack_id is Some,
        0 <= i < spec_search(lib, q).len(),
    ensures
        exists|pi: int, si: int|
            {
                &&& 0 <= pi < lib.packs@.len()
                &&& lib.packs@[pi].meta.name@ == (q.pack_id->0)@
                &&& 0 <= si < lib.packs@[pi].samples@.len()
                &&& #[trigger] lib.packs@[pi].samples@[si] == spec_search(lib, q)[i]
            },
{
    lemma_search_result_provenance(lib, q, i);
    let (pi, si): (int, int) = choose|pi: int, si: int|
        {
            &&& 0 <= pi < lib.packs@.len()
            &&& pack_selected(q, lib.packs@[pi])
            &&& 0 <= si < lib.packs@[pi].samples@.len()
            &&& #[trigger] lib.packs@[pi].samples@[si] == spec_search(lib, q)[i]
        };
    assert(lib.packs@[pi].meta.name@ == (q.pack_id->0)@);
}

/// LAW: negation. When some token of the query starts with the
/// negation marker, no returned sample's lowercased path contains that
/// token's text after the leading dash, lowercased.
pub proof fn lemma_negation_excludes(lib: SampleLibrary, q: SearchParams, k: int, i: int)
    requires
        0 <= k < spec_tokens(q.query@).len(),
        spec_tokens(q.query@)[k].len() > 0,
        spec_tokens(q.query@)[k][0] == '-',
        0 <= i < spec_search(lib, q).len(),
    ensures
        !has_substring(
            lower(spec_search(lib, q)[i].path@),
            lower(spec_tokens(q.query@)[k]).subrange(1, spec_tokens(q.query@)[k].len() as int),
        ),
{
    let tokens = spec_tokens(q.query@);
    let s = spec_search(lib, q)[i];
    lemma_search_result_provenance(lib, q, i);
    if has_substring(lower(s.path@), lower(tokens[k]).subrange(1, tokens[k].len() as int)) {
        assert(token_excludes(lower(s.path@), tokens[k]));
        assert(spec_excluded(lower(s.path@), tokens));
        assert(spec_relevance(q, s, tokens) == 0);
        assert(false);
    }
}

proof fn lemma_sample_hits_all_zero(
    q: SearchParams,
    samples: Seq<Sample>,
    tokens: Seq<Seq<char>>,
)
    requires
        forall|si: int|
            0 <= si < samples.len() ==> spec_relevance(q, #[trigger] samples[si], tokens) <= 0,
    ensures
        sample_hits(q, samples, tokens).len() == 0,
    decreases samples.len(),
{
    if samples.len() > 0 {
        assert(forall|si: int|
            0 <= si < samples.drop_last().len() ==> spec_relevance(
                q,
                #[trigger] samples.drop_last()[si],
                tokens,
            ) <= 0);
        lemma_sample_hits_all_zero(q, samples.drop_last(), tokens);
    }
}

proof fn lemma_lib_hits_all_zero(
    q: SearchParams,
    packs: Seq<Pack>,
    tokens: Seq<Seq<char>>,
)
    requires
        forall|pi: int, si: int|
            0 <= pi < packs.len() && 0 <= si < (#[trigger] packs[pi]).samples@.len()
                ==> spec_relevance(q, #[trigger] packs[pi].samples@[si], tokens) <= 0,
    ensures
        lib_hits(q, packs, tokens).len() == 0,
    decreases packs.len(),
{
    if packs.len() > 0 {
        assert(forall|pi: int, si: int|
            0 <= pi < packs.drop_last().len() && 0 <= si
                < (#[trigger] packs.drop_last()[pi]).samples@.len() ==> spec_relevance(
                q,
                #[trigger] packs.drop_last()[pi].samples@[si],
                tokens,
            ) <= 0);
        lemma_lib_hits_all_zero(q, packs.drop_last(), tokens);
        if pack_selected(q, packs.last()) {
            assert(forall|si: int|
                0 <= si < packs.last().samples@.len() ==> spec_relevance(
                    q,
                    #[trigger] packs.last().samples@[si],
                    tokens,
                ) <= 0) by {
                assert(forall|si: int|
                    0 <= si < packs[packs.len() - 1].samples@.len() ==> spec_relevance(
                        q,
                        #[trigger] packs[packs.len() - 1].samples@[si],
                        tokens,
                    ) <= 0);
            }
            lemma_sample_hits_all_zero(q, packs.last().samples@, tokens);
        }
    }
}

/// LAW: the type-filter gate. A query filtering for one-shots returns
/// nothing from a library that holds only loops.
pub proof fn lemma_type_filter_gate(lib: SampleLibrary, q: SearchParams)
    requires
        q.sample_type == Some(SampleType::OneShot),
        forall|pi: int, si: int|
            0 <= pi < lib.packs@.len() && 0 <= si < (#[trigger] lib.packs@[pi]).samples@.len()
                ==> (#[trigger] lib.packs@[pi].samples@[si]).sampletype is Loop,
    ensures
        spec_search(lib, q).len() == 0,
{
    let tokens = spec_tokens(q.query@);
    assert(forall|pi: int, si: int|
        0 <= pi < lib.packs@.len() && 0 <= si < (#[trigger] lib.packs@[pi]).samples@.len()
            ==> spec_relevance(q, #[trigger] lib.packs@[pi].samples@[si], tokens) <= 0);
    lemma_lib_hits_all_zero(q, lib.packs@, tokens);
    lemma_sort_desc_len(lib_hits(q, lib.packs@, tokens));
}

/// LAW: result length. A search returns exactly the matched-candidate
/// count, truncated at the limit: `max_results` clamped below at 0, or
/// the default 10 when absent. It never pads.
pub proof fn lemma_result_length(lib: SampleLibrary, q: SearchParams)
    ensures
        spec_search(lib, q).len() == ({
            let n = lib_hits(q, lib.packs@, spec_tokens(q.query@)).len() as int;
            if spec_limit(q) <= n {
                spec_limit(q)
            } else {
                n
            }
        }),
{
    lemma_sort_desc_len(lib_hits(q, lib.packs@, spec_tokens(q.query@)));
}

/// Scores are non-increasing along the sequence.
pub open spec fn scores_descending(s: Seq<(Sample, int)>) -> bool {
    forall|i: int, j: int| 0 <= i <= j < s.len() ==> (#[trigger] s[i]).1 >= (#[trigger] s[j]).1
}

proof fn lemma_insert_desc_sorted(x: (Sample, int), s: Seq<(Sample, int)>)
    requires
        scores_descending(s),
    ensures
        scores_descending(insert_desc(x, s)),
    decreases s.len(),
{
    if s.len() == 0 {
    } else if x.1 > s[0].1 {
        let r = seq![x] + s;
        assert forall|i: int, j: int| 0 <= i <= j < r.len() implies (#[trigger] r[i]).1
            >= (#[trigger] r[j]).1 by {
            if i == 0 && j > 0 {
                assert(s[0].1 >= s[j - 1].1);
            }
        }
    } else {
        let t = s.subrange(1, s.len() as int);
        assert(forall|i: int, j: int|
            0 <= i <= j < t.len() ==> (#[trigger] t[i]).1 >= (#[trigger] t[j]).1);
        lemma_insert_desc_sorted(x, t);
        let ri = insert_desc(x, t);
        let r = seq![s[0]] + ri;
        assert forall|i: int, j: int| 0 <= i <= j < r.len() implies (#[trigger] r[i]).1
            >= (#[trigger] r[j]).1 by {
            if i == 0 && j > 0 {
                lemma_insert_desc_member(x, t, j - 1);
                if ri[j - 1] == x {
                } else {
                    let m = choose|m: int| 0 <= m < t.len() && ri[j - 1] == #[trigger] t[m];
                    assert(s[0].1 >= s[m + 1].1);
                }
            }
        }
    }
}

proof fn lemma_sort_desc_sorted(s: Seq<(Sample, int)>)
    ensures
        scores_descending(sort_desc(s)),
    decreases s.len(),
{
    if s.len() > 0 {
        lemma_sort_desc_sorted(s.drop_last());
        lemma_insert_desc_sorted(s.last(), sort_desc(s.drop_last()));
    }
}

/// LAW: ranking. Results come out best-first: an earlier result never
/// has lower relevance against the query's tokens than a later one.
pub proof fn lemma_results_ranked(lib: SampleLibrary, q: SearchParams, i: int, j: int)
    requires
        0 <= i <= j < spec_search(lib, q).len(),
    ensures
        spec_relevance(q, spec_search(lib, q)[i], spec_tokens(q.query@)) >= spec_relevance(
            q,
            spec_search(lib, q)[j],
            spec_tokens(q.query@),
        ),
{
    let tokens = spec_tokens(q.query@);
    let hits = lib_hits(q, lib.packs@, tokens);
    let sorted = sort_desc(hits);
    lemma_sort_desc_len(hits);
    lemma_sort_desc_sorted(hits);
    assert(spec_search(lib, q)[i] == sorted[i].0);
    assert(spec_search(lib, q)[j] == sorted[j].0);
    lemma_sort_desc_member(hits, i);
    let ki = choose|k: int| 0 <= k < hits.len() && sorted[i] == #[trigger] hits[k];
    lemma_lib_hits_scored(q, lib.packs@, tokens, ki);
    lemma_sort_desc_member(hits, j);
    let kj = choose|k: int| 0 <= k < hits.len() && sorted[j] == #[trigger] hits[k];
    lemma_lib_hits_scored(q, lib.packs@, tokens, kj);
}

/// LAW: ties keep scan order. When every retained candidate carries
/// the same score, the stable sort leaves the sequence unchanged, so
/// samples with equal relevance come out in scan order.
pub proof fn lemma_sort_ties_keep_order(s: Seq<(Sample, int)>)
    requires
        forall|i: int, j: int|
            0 <= i < s.len() && 0 <= j < s.len() ==> (#[trigger] s[i]).1 == (#[trigger] s[j]).1,
    ensures
        sort_desc(s) == s,
    decreases s.len(),
{
    if s.len() > 0 {
        let d = s.drop_last();
        assert(forall|i: int, j: int|
            0 <= i < d.len() && 0 <= j < d.len() ==> (#[trigger] d[i]).1 == (#[trigger] d[j]).1);
        lemma_sort_ties_keep_order(d);
        lemma_insert_desc_at(s.last(), d, d.len() as int);
        assert(d.subrange(0, d.len() as int) =~= d);
        assert(d.subrange(d.len() as int, d.len() as int) =~= Seq::<(
            Sample,
            int,
        )>::empty());
        assert(sort_desc(s) =~= s);
    }
}

/// LAW: classification is total and deterministic. Equal paths always
/// classify alike; in particular the same path asked twice yields the
/// same answer.
pub proof fn lemma_detect_type_deterministic(p1: Seq<char>, p2: Seq<char>)
    requires
        p1 == p2,
    ensures
        spec_detect_type(p1) == spec_detect_type(p2),
{
}

/// LAW: a path whose lowercase form contains no loop keyword is a
/// one-shot; the `OneShot` tag carries no tempo at all.
pub proof fn lemma_no_keyword_one_shot(p: Seq<char>)
    requires
        forall|k: int|
            0 <= k < loop_keywords().len() ==> !has_substring(lower(p), #[trigger] loop_keywords()[k]),
    ensures
        spec_detect_type(p) == SampleType::OneShot,
{
}

/// LAW: a path whose lowercase form contains `loop` but whose brackets
/// yield no parseable tempo classifies as a loop at tempo 0.
pub proof fn lemma_loop_malformed_brackets(p: Seq<char>)
    requires
        has_substring(lower(p), "loop"@),
        spec_extract_tempo(lower(p)) is None,
    ensures
        spec_detect_type(p) == SampleType::Loop(0),
{
    assert(loop_keywords()[5] == "loop"@);
    assert(spec_is_loop(lower(p)));
}

/// LAW: a path whose lowercase form contains `[120]`, with no other
/// bracket character anywhere, classifies as a loop at tempo 120.
pub proof fn lemma_bracketed_tempo(p: Seq<char>, i: int)
    requires
        contains_at(lower(p), i, "[120]"@),
        forall|j: int| 0 <= j < lower(p).len() && #[trigger] lower(p)[j] == '[' ==> j == i,
        forall|j: int| 0 <= j < lower(p).len() && #[trigger] lower(p)[j] == ']' ==> j == i + 4,
    ensures
        spec_detect_type(p) == SampleType::Loop(120),
{
    reveal_strlit("[120]");
    reveal_strlit("[");
    let low = lower(p);
    let pat = "[120]"@;
    assert(pat.len() == 5);
    assert(low.subrange(i, i + 5) == pat);
    assert(low[i] == '[') by {
        assert(low.subrange(i, i + 5)[0] == low[i]);
    }
    assert(low[i + 1] == '1') by {
        assert(low.subrange(i, i + 5)[1] == low[i + 1]);
    }
    assert(low[i + 2] == '2') by {
        assert(low.subrange(i, i + 5)[2] == low[i + 2]);
    }
    assert(low[i + 3] == '0') by {
        assert(low.subrange(i, i + 5)[3] == low[i + 3]);
    }
    assert(low[i + 4] == ']') by {
        assert(low.subrange(i, i + 5)[4] == low[i + 4]);
    }
    // the bracket keyword fires, so the path is a loop
    assert(contains_at(low, i, "["@)) by {
        assert(low.subrange(i, i + 1) =~= "["@);
    }
    assert(loop_keywords()[3] == "["@);
    assert(spec_is_loop(low));
    // the first `[` is at i, the first `]` after it at i + 4
    lemma_find_char(low, '[');
    let f = find_char(low, '[');
    assert(f == i);
    let rest = low.subrange(i + 1, low.len() as int);
    lemma_find_char(rest, ']');
    let g = find_char(rest, ']');
    assert(rest[3] == low[i + 4]);
    assert(g == 3) by {
        if g < rest.len() {
            assert(low[i + 1 + g] == rest[g]);
        }
    }
    let interior = rest.subrange(0, 3);
    assert(interior[0] == '1' && interior[1] == '2' && interior[2] == '0');
    // the interior parses as 120
    assert(all_digits(interior));
    let d2 = interior.subrange(0, 2);
    let d1 = interior.subrange(0, 1);
    let d0 = interior.subrange(0, 0);
    assert(digits_val(d0) == 0);
    assert(d1.subrange(0, 0) =~= d0);
    assert(digits_val(d1) == 1);
    assert(d2.subrange(0, 1) =~= d1);
    assert(digits_val(d2) == 12);
    assert(interior.subrange(0, 2) =~= d2);
    assert(digits_val(interior) == 120);
    assert(parse_int(interior) == Some(120i32));
    assert(spec_extract_tempo(low) == Some(120i32));
    assert(spec_detect_tempo(low) == 120);
}

} // verus!
